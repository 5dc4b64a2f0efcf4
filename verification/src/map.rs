use vstd::prelude::*;
use crate::rect::{Rect, rects_overlap, rect_center};
use crate::rng::{new_rng, rng_range, roll_dice};

verus! {

/// Width of the generated map, in cells.
pub const MAPWIDTH: usize = 80;
/// Height of the generated map, in cells.
pub const MAPHEIGHT: usize = 43;
/// Number of cells of the generated map.
pub const MAPCOUNT: usize = MAPHEIGHT * MAPWIDTH;

/// What a map cell is made of.
#[derive(PartialEq, Eq, Structural, Copy, Clone, Debug)]
pub enum TileType {
    Wall,
    Floor,
    DownStairs,
}

/// A level of the dungeon: a row-major grid of tiles, the rooms carved into it,
/// and per-cell bookkeeping (what was seen, what is seen, what blocks movement,
/// and which entities stand where, by entity id).
pub struct GameMap {
    pub tiles: Vec<TileType>,
    pub rooms: Vec<Rect>,
    pub width: i32,
    pub height: i32,
    pub revealed_tiles: Vec<bool>,
    pub visible_tiles: Vec<bool>,
    pub blocked: Vec<bool>,
    pub depth: i32,
    pub tile_content: Vec<Vec<u32>>,
}

/// Index of the cell at column `x`, row `y` of a row-major grid `w` cells wide.
pub open spec fn cell(w: int, x: int, y: int) -> int {
    y * w + x
}

/// Whether `(x, y)` lies inside room `r`, leaving out its top row and left column,
/// which stay wall.
pub open spec fn room_cell(r: Rect, x: int, y: int) -> bool {
    r.x1 < x <= r.x2 && r.y1 < y <= r.y2
}

pub open spec fn min_i(a: int, b: int) -> int {
    if a < b { a } else { b }
}

pub open spec fn max_i(a: int, b: int) -> int {
    if a < b { b } else { a }
}

/// `new` differs from `old` only where it was made walkable: every cell keeps its
/// tile or is now something other than a wall.
pub open spec fn only_opened(old: Seq<TileType>, new: Seq<TileType>) -> bool {
    &&& new.len() == old.len()
    &&& forall|i: int| 0 <= i < new.len() ==> new[i] == old[i] || new[i] != TileType::Wall
}

/// Room `r` lies inside a `w` by `h` grid, with at least one column and one row of
/// the grid to its right and below it.
pub open spec fn room_in_bounds(r: Rect, w: int, h: int) -> bool {
    &&& 0 <= r.x1 < r.x2 <= w - 2
    &&& 0 <= r.y1 < r.y2 <= h - 2
}

/// Every cell inside room `r` lies in the grid and is walkable.
pub open spec fn room_carved(t: Seq<TileType>, w: int, r: Rect) -> bool {
    forall|x: int, y: int| #[trigger] room_cell(r, x, y)
        ==> 0 <= cell(w, x, y) < t.len() && t[cell(w, x, y)] != TileType::Wall
}

/// Every cell of row `y` between columns `xa` and `xb` lies in the grid and is walkable.
pub open spec fn hline_open(t: Seq<TileType>, w: int, xa: int, xb: int, y: int) -> bool {
    forall|x: int| min_i(xa, xb) <= x <= max_i(xa, xb)
        ==> 0 <= #[trigger] cell(w, x, y) < t.len() && t[cell(w, x, y)] != TileType::Wall
}

/// Every cell of column `x` between rows `ya` and `yb` lies in the grid and is walkable.
pub open spec fn vline_open(t: Seq<TileType>, w: int, ya: int, yb: int, x: int) -> bool {
    forall|y: int| min_i(ya, yb) <= y <= max_i(ya, yb)
        ==> 0 <= #[trigger] cell(w, x, y) < t.len() && t[cell(w, x, y)] != TileType::Wall
}

/// The centres of rooms `a` and `b` are joined by a walkable L-shaped corridor, which
/// runs either along `a`'s row and then `b`'s column, or along `a`'s column and then
/// `b`'s row.
pub open spec fn rooms_joined(t: Seq<TileType>, w: int, a: Rect, b: Rect) -> bool {
    let (ax, ay) = rect_center(a);
    let (bx, by) = rect_center(b);
    ||| hline_open(t, w, ax, bx, ay) && vline_open(t, w, ay, by, bx)
    ||| vline_open(t, w, ay, by, ax) && hline_open(t, w, ax, bx, by)
}

/// Opening more cells keeps every carved room carved.
proof fn lemma_carved_kept(old: Seq<TileType>, new: Seq<TileType>, w: int, r: Rect)
    requires
        only_opened(old, new),
        room_carved(old, w, r),
    ensures
        room_carved(new, w, r),
{
    assert forall|x: int, y: int| #[trigger] room_cell(r, x, y) implies 0 <= cell(w, x, y) < new.len()
        && new[cell(w, x, y)] != TileType::Wall by {
        assert(old[cell(w, x, y)] != TileType::Wall);
    }
}

/// Opening more cells keeps every open row segment open.
proof fn lemma_hline_kept(old: Seq<TileType>, new: Seq<TileType>, w: int, xa: int, xb: int, y: int)
    requires
        only_opened(old, new),
        hline_open(old, w, xa, xb, y),
    ensures
        hline_open(new, w, xa, xb, y),
{
    assert forall|x: int| min_i(xa, xb) <= x <= max_i(xa, xb) implies 0 <= #[trigger] cell(w, x, y) < new.len()
        && new[cell(w, x, y)] != TileType::Wall by {
        assert(old[cell(w, x, y)] != TileType::Wall);
    }
}

/// Opening more cells keeps every open column segment open.
proof fn lemma_vline_kept(old: Seq<TileType>, new: Seq<TileType>, w: int, ya: int, yb: int, x: int)
    requires
        only_opened(old, new),
        vline_open(old, w, ya, yb, x),
    ensures
        vline_open(new, w, ya, yb, x),
{
    assert forall|y: int| min_i(ya, yb) <= y <= max_i(ya, yb) implies 0 <= #[trigger] cell(w, x, y) < new.len()
        && new[cell(w, x, y)] != TileType::Wall by {
        assert(old[cell(w, x, y)] != TileType::Wall);
    }
}

/// Opening more cells keeps every pair of joined rooms joined.
proof fn lemma_joined_kept(old: Seq<TileType>, new: Seq<TileType>, w: int, a: Rect, b: Rect)
    requires
        only_opened(old, new),
        rooms_joined(old, w, a, b),
    ensures
        rooms_joined(new, w, a, b),
{
    let (ax, ay) = rect_center(a);
    let (bx, by) = rect_center(b);
    if hline_open(old, w, ax, bx, ay) && vline_open(old, w, ay, by, bx) {
        lemma_hline_kept(old, new, w, ax, bx, ay);
        lemma_vline_kept(old, new, w, ay, by, bx);
    } else {
        lemma_vline_kept(old, new, w, ay, by, ax);
        lemma_hline_kept(old, new, w, ax, bx, by);
    }
}


/// How far a step to a neighbouring cell goes: along a row or column, or diagonally.
#[derive(PartialEq, Eq, Structural, Copy, Clone, Debug)]
pub enum ExitKind {
    Straight,
    Diagonal,
}

/// Whether cell `(x, y)` can be stepped onto: it lies inside the map's outer ring of
/// cells (columns 1 to width - 1, rows 1 to height - 1) and is not blocked.
pub open spec fn exit_ok(map: GameMap, x: int, y: int) -> bool {
    &&& 1 <= x <= map.width - 1
    &&& 1 <= y <= map.height - 1
    &&& !map.blocked@[cell(map.width as int, x, y)]
}

/// If cell `(x, y)` is one that `exit_ok` looks up (inside the outer ring), the map's
/// blocking flags hold it.
pub open spec fn exit_in_bounds(map: GameMap, x: int, y: int) -> bool {
    1 <= x <= map.width - 1 && 1 <= y <= map.height - 1 ==> cell(map.width as int, x, y) < map.blocked@.len()
}

/// Every neighbour of cell `idx` that `exits_from` looks up is held by the map's
/// blocking flags.
pub open spec fn exits_in_bounds(map: GameMap, idx: int) -> bool {
    let x = idx % (map.width as int);
    let y = idx / (map.width as int);
    forall|nx: int, ny: int| x - 1 <= nx <= x + 1 && y - 1 <= ny <= y + 1 ==> #[trigger] exit_in_bounds(map, nx, ny)
}

/// The one-element sequence holding `e` if `keep` holds, else the empty sequence.
pub open spec fn exit_if(keep: bool, e: (usize, ExitKind)) -> Seq<(usize, ExitKind)> {
    if keep { seq![e] } else { Seq::empty() }
}

/// The exits from cell `idx`: the straight neighbours left, right, up and down, then the
/// diagonal ones up-left, up-right, down-left and down-right, each kept if it can be
/// stepped onto, given by its index.
pub open spec fn exits_from(map: GameMap, idx: int) -> Seq<(usize, ExitKind)> {
    let w = map.width as int;
    let x = idx % w;
    let y = idx / w;
    exit_if(exit_ok(map, x - 1, y), (cell(w, x - 1, y) as usize, ExitKind::Straight))
        + exit_if(exit_ok(map, x + 1, y), (cell(w, x + 1, y) as usize, ExitKind::Straight))
        + exit_if(exit_ok(map, x, y - 1), (cell(w, x, y - 1) as usize, ExitKind::Straight))
        + exit_if(exit_ok(map, x, y + 1), (cell(w, x, y + 1) as usize, ExitKind::Straight))
        + exit_if(exit_ok(map, x - 1, y - 1), (cell(w, x - 1, y - 1) as usize, ExitKind::Diagonal))
        + exit_if(exit_ok(map, x + 1, y - 1), (cell(w, x + 1, y - 1) as usize, ExitKind::Diagonal))
        + exit_if(exit_ok(map, x - 1, y + 1), (cell(w, x - 1, y + 1) as usize, ExitKind::Diagonal))
        + exit_if(exit_ok(map, x + 1, y + 1), (cell(w, x + 1, y + 1) as usize, ExitKind::Diagonal))
}

/// How a drawn map cell is coloured: lit when in view, greyed when only remembered.
#[derive(PartialEq, Eq, Structural, Copy, Clone, Debug)]
pub enum TileColor {
    Floor,
    Wall,
    DownStairs,
    RememberedFloor,
    RememberedOther,
}

/// One map cell to draw on the screen.
pub struct MapCell {
    pub x: i32,
    pub y: i32,
    pub glyph: u16,
    pub color: TileColor,
}

/// The character a tile is drawn with.
pub open spec fn tile_char(t: TileType) -> char {
    match t {
        TileType::Floor => '.',
        TileType::Wall => '#',
        TileType::DownStairs => '>',
    }
}

/// The colour of a tile, in view or only remembered.
pub open spec fn tile_color(t: TileType, visible: bool) -> TileColor {
    if visible {
        match t {
            TileType::Floor => TileColor::Floor,
            TileType::Wall => TileColor::Wall,
            TileType::DownStairs => TileColor::DownStairs,
        }
    } else {
        match t {
            TileType::Floor => TileColor::RememberedFloor,
            _ => TileColor::RememberedOther,
        }
    }
}

/// Whether screen cell `c` shows tile `i` of the map: the tile is revealed; the cell is
/// at column `i % 80`, row `i / 80`; its glyph is the code page 437 code of the tile's
/// own character ('.' floor, '#' wall, '>' way down) whether or not the tile is in view;
/// and only its colour says whether the tile is in view or remembered.
pub open spec fn shows_tile(map: GameMap, i: int, c: MapCell) -> bool {
    let t = map.tiles@[i];
    &&& map.revealed_tiles@[i]
    &&& c.x == i % 80
    &&& c.y == i / 80
    &&& c.glyph == crate::rng::cp437_code(match t {
        TileType::Floor => '.',
        TileType::Wall => '#',
        TileType::DownStairs => '>',
    })
    &&& c.color == if map.visible_tiles@[i] {
        match t {
            TileType::Floor => TileColor::Floor,
            TileType::Wall => TileColor::Wall,
            TileType::DownStairs => TileColor::DownStairs,
        }
    } else {
        match t {
            TileType::Floor => TileColor::RememberedFloor,
            _ => TileColor::RememberedOther,
        }
    }
}

/// Screen cell `c` shows one of the first `n` tiles of the map.
pub open spec fn shows_some_tile(map: GameMap, n: int, c: MapCell) -> bool {
    exists|i: int| 0 <= i < n && #[trigger] shows_tile(map, i, c)
}

/// Law: every cell drawn for the first `n` tiles shows one of them as `shows_tile`
/// says (at its own column and row, with its own tile's glyph whether or not it is in
/// view, the view changing only the colour), and every revealed tile among them is
/// drawn.
pub proof fn lemma_drawn_cells_show_their_tiles(map: GameMap, n: int)
    requires
        0 <= n,
        n / 80 <= i32::MAX,
    ensures
        forall|k: int| 0 <= k < drawn_cells(map, n).len() ==> shows_some_tile(map, n, #[trigger] drawn_cells(map, n)[k]),
        forall|i: int| 0 <= i < n && #[trigger] map.revealed_tiles@[i]
            ==> exists|k: int| 0 <= k < drawn_cells(map, n).len() && shows_tile(map, i, #[trigger] drawn_cells(map, n)[k]),
    decreases n,
{
    if n > 0 {
        let i = n - 1;
        let rest = drawn_cells(map, n - 1);
        lemma_drawn_cells_show_their_tiles(map, n - 1);
        assert(0 <= i / 80 <= i32::MAX) by {
            assert(i / 80 <= n / 80) by (nonlinear_arith)
                requires 0 <= i < n;
        }
        assert forall|k: int| 0 <= k < rest.len() implies #[trigger] drawn_cells(map, n)[k] == rest[k] by {}
        assert forall|k: int| 0 <= k < drawn_cells(map, n).len()
            implies shows_some_tile(map, n, #[trigger] drawn_cells(map, n)[k]) by {
            if k < rest.len() {
                assert(rest[k] == drawn_cells(map, n)[k]);
                assert(shows_some_tile(map, n - 1, rest[k]));
                let j = choose|j: int| 0 <= j < n - 1 && #[trigger] shows_tile(map, j, rest[k]);
                assert(shows_tile(map, j, drawn_cells(map, n)[k]));
            } else {
                assert(shows_tile(map, i, drawn_cells(map, n)[k]));
            }
        }
        assert forall|j: int| 0 <= j < n && #[trigger] map.revealed_tiles@[j]
            implies exists|k: int| 0 <= k < drawn_cells(map, n).len() && shows_tile(map, j, #[trigger] drawn_cells(map, n)[k]) by {
            if j < n - 1 {
                let k = choose|k: int| 0 <= k < rest.len() && shows_tile(map, j, #[trigger] rest[k]);
                assert(shows_tile(map, j, drawn_cells(map, n)[k]));
            } else {
                assert(shows_tile(map, j, drawn_cells(map, n)[rest.len() as int]));
            }
        }
    } else {
        assert(drawn_cells(map, n).len() == 0);
    }
}

/// The screen cells for the first `n` tiles of the map: each revealed tile, in index
/// order, at column `i % 80` and row `i / 80` of the screen.
pub open spec fn drawn_cells(map: GameMap, n: int) -> Seq<MapCell>
    decreases n,
{
    if n <= 0 {
        Seq::empty()
    } else {
        let i = n - 1;
        let rest = drawn_cells(map, n - 1);
        if map.revealed_tiles@[i] {
            rest.push(MapCell {
                x: (i % 80) as i32,
                y: (i / 80) as i32,
                glyph: crate::rng::cp437_code(tile_char(map.tiles@[i])),
                color: tile_color(map.tiles@[i], map.visible_tiles@[i]),
            })
        } else {
            rest
        }
    }
}

/// Every cell of a room that fits in the grid has an index inside the grid.
proof fn lemma_room_cells_in_range(room: Rect, w: int, len: int)
    requires
        0 < w,
        -1 <= room.x1,
        -1 <= room.y1,
        room.x1 < room.x2 && room.y1 < room.y2 ==> cell(w, room.x2 as int, room.y2 as int) < len,
    ensures
        forall|x: int, y: int| #[trigger] room_cell(room, x, y) ==> 0 <= cell(w, x, y) < len,
{
    assert forall|x: int, y: int| #[trigger] room_cell(room, x, y) implies 0 <= cell(w, x, y) < len by {
        assert(0 <= cell(w, x, y) <= cell(w, room.x2 as int, room.y2 as int)) by (nonlinear_arith)
            requires
                0 < w,
                0 <= y <= room.y2,
                0 <= x <= room.x2,
        ;
    }
}

/// `n` cells of the same tile.
fn filled_tiles(tile: TileType, n: usize) -> (v: Vec<TileType>)
    ensures
        v@.len() == n,
        forall|i: int| 0 <= i < n ==> #[trigger] v@[i] == tile,
{
    let mut v: Vec<TileType> = Vec::new();
    let mut k: usize = 0;
    while k < n
        invariant
            k <= n,
            v@.len() == k,
            forall|i: int| 0 <= i < k ==> #[trigger] v@[i] == tile,
        decreases n - k,
    {
        v.push(tile);
        k = k + 1;
    }
    v
}

/// `n` flags, all false.
fn cleared_flags(n: usize) -> (v: Vec<bool>)
    ensures
        v@.len() == n,
        forall|i: int| 0 <= i < n ==> !(#[trigger] v@[i]),
{
    let mut v: Vec<bool> = Vec::new();
    let mut k: usize = 0;
    while k < n
        invariant
            k <= n,
            v@.len() == k,
            forall|i: int| 0 <= i < k ==> !(#[trigger] v@[i]),
        decreases n - k,
    {
        v.push(false);
        k = k + 1;
    }
    v
}

/// `n` empty lists of entity ids.
fn empty_contents(n: usize) -> (v: Vec<Vec<u32>>)
    ensures
        v@.len() == n,
        forall|i: int| 0 <= i < n ==> (#[trigger] v@[i])@.len() == 0,
{
    let mut v: Vec<Vec<u32>> = Vec::new();
    let mut k: usize = 0;
    while k < n
        invariant
            k <= n,
            v@.len() == k,
            forall|i: int| 0 <= i < k ==> (#[trigger] v@[i])@.len() == 0,
        decreases n - k,
    {
        v.push(Vec::new());
        k = k + 1;
    }
    v
}

/// How many rooms the generator tries to place.
pub const MAX_ROOMS: i32 = 30;
/// Smallest room side the generator draws.
pub const MIN_SIZE: i32 = 6;
/// The generator draws room sides below this.
pub const MAX_SIZE: i32 = 10;

/// The dice drawn for one attempt to place a room: its width and height, its
/// top-left corner, and the coin that picks the bend of the corridor to it.
#[derive(PartialEq, Eq, Structural, Clone, Copy, Debug)]
pub struct RoomDraw {
    pub w: i32,
    pub h: i32,
    pub x: i32,
    pub y: i32,
    pub horizontal_first: bool,
}

/// The draw is one the generator's dice can give: sides from `MIN_SIZE` to below
/// `MAX_SIZE`, and a corner that keeps the room one cell clear of the right and
/// bottom edges.
pub open spec fn draw_in_range(d: RoomDraw) -> bool {
    &&& MIN_SIZE <= d.w < MAX_SIZE
    &&& MIN_SIZE <= d.h < MAX_SIZE
    &&& 0 <= d.x <= MAPWIDTH - d.w - 2
    &&& 0 <= d.y <= MAPHEIGHT - d.h - 2
}

/// The number of faces of the two dice that place a room `w` wide and `h` high on a
/// `map_width` by `map_height` map: one per column, and one per row, where its top-left
/// corner can go and keep the room one cell clear of the right and bottom edges.
pub open spec fn corner_faces(map_width: int, map_height: int, w: int, h: int) -> (int, int) {
    (map_width - w - 1, map_height - h - 1)
}

/// The dice that place a room `w` wide and `h` high: their numbers of faces.
pub fn corner_dice(map_width: i32, map_height: i32, w: i32, h: i32) -> (faces: (i32, i32))
    requires
        i32::MIN <= map_width - w <= i32::MAX,
        i32::MIN <= map_width - w - 1,
        i32::MIN <= map_height - h <= i32::MAX,
        i32::MIN <= map_height - h - 1,
    ensures
        faces.0 == corner_faces(map_width as int, map_height as int, w as int, h as int).0,
        faces.1 == corner_faces(map_width as int, map_height as int, w as int, h as int).1,
{
    (map_width - w - 1, map_height - h - 1)
}

/// The corner coordinate a die roll gives: one less than the roll, so a die's faces
/// 1 to n give the coordinates 0 to n - 1.
pub fn corner_from_roll(roll: i32) -> (c: i32)
    requires
        i32::MIN < roll,
    ensures
        c == roll - 1,
{
    roll - 1
}

/// Law: the dice reach every room a generated level can hold and no other. For every
/// size within the dice's range, the top-left corners that one roll of each corner die
/// (each face from 1 up to its number of faces, less one) can give are exactly the
/// corners from column 0 to `MAPWIDTH - w - 2` and row 0 to `MAPHEIGHT - h - 2`, across
/// the whole map.
pub proof fn lemma_corner_dice_reach_every_corner(w: int, h: int, x: int, y: int)
    requires
        MIN_SIZE <= w < MAX_SIZE,
        MIN_SIZE <= h < MAX_SIZE,
    ensures
        (0 <= x <= MAPWIDTH - w - 2 && 0 <= y <= MAPHEIGHT - h - 2) <==> (
            1 <= x + 1 <= corner_faces(MAPWIDTH as int, MAPHEIGHT as int, w, h).0
            && 1 <= y + 1 <= corner_faces(MAPWIDTH as int, MAPHEIGHT as int, w, h).1),
{
}

/// The room a draw proposes.
pub open spec fn draw_rect(d: RoomDraw) -> Rect {
    Rect { x1: d.x, y1: d.y, x2: (d.x + d.w) as i32, y2: (d.y + d.h) as i32 }
}

/// Room `r` overlaps none of `rooms`.
pub open spec fn fits(rooms: Seq<Rect>, r: Rect) -> bool {
    forall|k: int| 0 <= k < rooms.len() ==> !rects_overlap(r, #[trigger] rooms[k])
}

/// Whether `(x, y)` lies on the L-shaped corridor from `a` to `b`: along `a`'s row and
/// then `b`'s column when `horizontal_first`, else along `a`'s column and then `b`'s
/// row.
pub open spec fn on_corridor(a: (int, int), b: (int, int), horizontal_first: bool, x: int, y: int) -> bool {
    let in_xs = min_i(a.0, b.0) <= x <= max_i(a.0, b.0);
    let in_ys = min_i(a.1, b.1) <= y <= max_i(a.1, b.1);
    if horizontal_first {
        (y == a.1 && in_xs) || (x == b.0 && in_ys)
    } else {
        (x == a.0 && in_ys) || (y == b.1 && in_xs)
    }
}

/// Whether placing room `r` after `rooms` digs out `(x, y)`: a cell inside `r`, or,
/// when there is a room before it, a cell of the corridor from that room's centre to
/// `r`'s centre.
pub open spec fn dug_by(rooms: Seq<Rect>, r: Rect, horizontal_first: bool, x: int, y: int) -> bool {
    ||| room_cell(r, x, y)
    ||| rooms.len() > 0 && on_corridor(rect_center(rooms.last()), rect_center(r), horizontal_first, x, y)
}

/// The tiles `t` (80 columns a row) with every cell that placing room `r` after
/// `rooms` digs out made floor.
pub open spec fn dig(t: Seq<TileType>, rooms: Seq<Rect>, r: Rect, horizontal_first: bool) -> Seq<TileType> {
    Seq::new(t.len(), |i: int| if dug_by(rooms, r, horizontal_first, i % 80, i / 80) { TileType::Floor } else { t[i] })
}

/// One attempt to place a room on a level given by its tiles (80 columns a row) and
/// its rooms: if the proposed room overlaps none of the rooms, every cell it digs out
/// becomes floor and the room is added; otherwise the level stays as it was.
pub open spec fn level_step(level: (Seq<TileType>, Seq<Rect>), d: RoomDraw) -> (Seq<TileType>, Seq<Rect>) {
    let (t, rooms) = level;
    let r = draw_rect(d);
    if fits(rooms, r) {
        (dig(t, rooms, r, d.horizontal_first), rooms.push(r))
    } else {
        level
    }
}

/// A level of solid rock with no rooms.
pub open spec fn empty_level() -> (Seq<TileType>, Seq<Rect>) {
    (Seq::new(MAPCOUNT as nat, |i: int| TileType::Wall), Seq::empty())
}

/// The level after the attempts `ds`, in order, starting from solid rock.
pub open spec fn level_after(ds: Seq<RoomDraw>) -> (Seq<TileType>, Seq<Rect>)
    decreases ds.len(),
{
    if ds.len() == 0 {
        empty_level()
    } else {
        level_step(level_after(ds.drop_last()), ds.last())
    }
}

/// The tiles with the way down put at the centre of the last room.
pub open spec fn with_stairs(t: Seq<TileType>, rooms: Seq<Rect>) -> Seq<TileType> {
    t.update(cell(MAPWIDTH as int, rect_center(rooms.last()).0, rect_center(rooms.last()).1), TileType::DownStairs)
}

/// Room `k` of `rooms` accounts for cell `(x, y)`: the cell is inside it, or on one of
/// the two L-shaped paths from the centre of the room before it to its centre.
pub open spec fn explained_by(rooms: Seq<Rect>, k: int, x: int, y: int) -> bool {
    &&& 0 <= k < rooms.len()
    &&& (room_cell(rooms[k], x, y) || (k > 0 && (
        on_corridor(rect_center(rooms[k - 1]), rect_center(rooms[k]), true, x, y)
        || on_corridor(rect_center(rooms[k - 1]), rect_center(rooms[k]), false, x, y))))
}

/// Every walkable cell of `t` (80 columns a row) is inside a room or on a corridor
/// between consecutive rooms.
pub open spec fn all_explained(t: Seq<TileType>, rooms: Seq<Rect>) -> bool {
    forall|i: int| 0 <= i < t.len() && #[trigger] t[i] != TileType::Wall
        ==> exists|k: int| #[trigger] explained_by(rooms, k, i % 80, i / 80)
}

/// `t` with every cell inside `room` made floor.
spec fn room_dug(t: Seq<TileType>, room: Rect) -> Seq<TileType> {
    Seq::new(t.len(), |i: int| if room_cell(room, i % 80, i / 80) { TileType::Floor } else { t[i] })
}

/// `t` with row `y0` made floor from column `lo` to `hi`.
spec fn row_dug(t: Seq<TileType>, lo: int, hi: int, y0: int) -> Seq<TileType> {
    Seq::new(t.len(), |i: int| if i / 80 == y0 && lo <= i % 80 <= hi { TileType::Floor } else { t[i] })
}

/// `t` with column `x0` made floor from row `lo` to `hi`.
spec fn col_dug(t: Seq<TileType>, lo: int, hi: int, x0: int) -> Seq<TileType> {
    Seq::new(t.len(), |i: int| if i % 80 == x0 && lo <= i / 80 <= hi { TileType::Floor } else { t[i] })
}

/// Cell index `i` of the 80-column map is the cell at its column and row.
proof fn lemma_index_cell(i: int)
    requires
        0 <= i,
    ensures
        i == cell(MAPWIDTH as int, i % 80, i / 80),
        0 <= i % 80 < 80,
{
    vstd::arithmetic::div_mod::lemma_fundamental_div_mod(i, 80);
}

/// A cell of the 80-column map at column `x` (0 to 79) and row `y` has index `i` only
/// if `x` and `y` are `i`'s column and row.
proof fn lemma_cell_unique(i: int, x: int, y: int)
    requires
        0 <= x < 80,
        cell(MAPWIDTH as int, x, y) == i,
    ensures
        i % 80 == x,
        i / 80 == y,
{
    vstd::arithmetic::div_mod::lemma_fundamental_div_mod_converse(i, 80, y, x);
}

/// Carving a room inside the generated map gives `room_dug`.
proof fn lemma_room_exact(old: Seq<TileType>, new: Seq<TileType>, room: Rect)
    requires
        old.len() == MAPCOUNT,
        new.len() == old.len(),
        room_in_bounds(room, MAPWIDTH as int, MAPHEIGHT as int),
        forall|x: int, y: int| room_cell(room, x, y) ==> #[trigger] new[cell(MAPWIDTH as int, x, y)] == TileType::Floor,
        forall|i: int| 0 <= i < old.len()
            && (forall|x: int, y: int| room_cell(room, x, y) ==> cell(MAPWIDTH as int, x, y) != i)
            ==> #[trigger] new[i] == old[i],
    ensures
        new == room_dug(old, room),
{
    assert forall|i: int| 0 <= i < old.len() implies new[i] == room_dug(old, room)[i] by {
        lemma_index_cell(i);
        if !room_cell(room, i % 80, i / 80) {
            assert forall|x: int, y: int| room_cell(room, x, y) implies cell(MAPWIDTH as int, x, y) != i by {
                if cell(MAPWIDTH as int, x, y) == i {
                    lemma_cell_unique(i, x, y);
                }
            }
        }
    }
    assert(new =~= room_dug(old, room));
}

/// Digging a row segment inside the generated map gives `row_dug`.
proof fn lemma_row_exact(old: Seq<TileType>, new: Seq<TileType>, lo: int, hi: int, y0: int)
    requires
        old.len() == MAPCOUNT,
        new.len() == old.len(),
        1 <= lo,
        hi <= MAPWIDTH - 2,
        1 <= y0 <= MAPHEIGHT - 2,
        forall|x: int| lo <= x <= hi && 0 < cell(MAPWIDTH as int, x, y0) < old.len()
            ==> #[trigger] new[cell(MAPWIDTH as int, x, y0)] == TileType::Floor,
        forall|i: int| 0 <= i < old.len()
            && (forall|x: int| lo <= x <= hi ==> cell(MAPWIDTH as int, x, y0) != i)
            ==> #[trigger] new[i] == old[i],
    ensures
        new == row_dug(old, lo, hi, y0),
{
    assert forall|i: int| 0 <= i < old.len() implies new[i] == row_dug(old, lo, hi, y0)[i] by {
        lemma_index_cell(i);
        if i / 80 == y0 && lo <= i % 80 <= hi {
            assert(new[cell(MAPWIDTH as int, i % 80, y0)] == TileType::Floor);
        } else {
            assert forall|x: int| lo <= x <= hi implies cell(MAPWIDTH as int, x, y0) != i by {
                if cell(MAPWIDTH as int, x, y0) == i {
                    lemma_cell_unique(i, x, y0);
                }
            }
        }
    }
    assert(new =~= row_dug(old, lo, hi, y0));
}

/// Digging a column segment inside the generated map gives `col_dug`.
proof fn lemma_col_exact(old: Seq<TileType>, new: Seq<TileType>, lo: int, hi: int, x0: int)
    requires
        old.len() == MAPCOUNT,
        new.len() == old.len(),
        1 <= lo,
        hi <= MAPHEIGHT - 2,
        1 <= x0 <= MAPWIDTH - 2,
        forall|y: int| lo <= y <= hi && 0 < cell(MAPWIDTH as int, x0, y) < old.len()
            ==> #[trigger] new[cell(MAPWIDTH as int, x0, y)] == TileType::Floor,
        forall|i: int| 0 <= i < old.len()
            && (forall|y: int| lo <= y <= hi ==> cell(MAPWIDTH as int, x0, y) != i)
            ==> #[trigger] new[i] == old[i],
    ensures
        new == col_dug(old, lo, hi, x0),
{
    assert forall|i: int| 0 <= i < old.len() implies new[i] == col_dug(old, lo, hi, x0)[i] by {
        lemma_index_cell(i);
        if i % 80 == x0 && lo <= i / 80 <= hi {
            assert(new[cell(MAPWIDTH as int, x0, i / 80)] == TileType::Floor);
        } else {
            assert forall|y: int| lo <= y <= hi implies cell(MAPWIDTH as int, x0, y) != i by {
                if cell(MAPWIDTH as int, x0, y) == i {
                    lemma_cell_unique(i, x0, y);
                }
            }
        }
    }
    assert(new =~= col_dug(old, lo, hi, x0));
}

/// Placing a room keeps every walkable cell accounted for.
proof fn lemma_explained_step(t: Seq<TileType>, rooms: Seq<Rect>, r: Rect, hf: bool, new: Seq<TileType>)
    requires
        all_explained(t, rooms),
        new == dig(t, rooms, r, hf),
    ensures
        all_explained(new, rooms.push(r)),
{
    let rs = rooms.push(r);
    assert forall|i: int| 0 <= i < new.len() && #[trigger] new[i] != TileType::Wall
        implies exists|k: int| #[trigger] explained_by(rs, k, i % 80, i / 80) by {
        let x = i % 80;
        let y = i / 80;
        if dug_by(rooms, r, hf, x, y) {
            assert(rs[rooms.len() as int] == r);
            if rooms.len() > 0 {
                assert(rs[rooms.len() - 1] == rooms.last());
            }
            assert(explained_by(rs, rooms.len() as int, x, y));
        } else {
            assert(t[i] != TileType::Wall);
            let k = choose|k: int| #[trigger] explained_by(rooms, k, x, y);
            assert(rs[k] == rooms[k]);
            if k > 0 {
                assert(rs[k - 1] == rooms[k - 1]);
            }
            assert(explained_by(rs, k, x, y));
        }
    }
}

/// The tiles `t` (80 columns a row) with every cell of the L-shaped corridor from `a`
/// to `b`, bent as `hf` says, made floor.
spec fn corridor_dug(t: Seq<TileType>, a: (int, int), b: (int, int), hf: bool) -> Seq<TileType> {
    Seq::new(t.len(), |i: int| if on_corridor(a, b, hf, i % 80, i / 80) { TileType::Floor } else { t[i] })
}

/// Digging the two legs of a corridor, in the order that `hf` picks, digs out the
/// corridor.
proof fn lemma_corridor_steps(t1: Seq<TileType>, t2: Seq<TileType>, t3: Seq<TileType>, a: (int, int), b: (int, int), hf: bool)
    requires
        hf ==> t2 == row_dug(t1, min_i(a.0, b.0), max_i(a.0, b.0), a.1),
        hf ==> t3 == col_dug(t2, min_i(a.1, b.1), max_i(a.1, b.1), b.0),
        !hf ==> t2 == col_dug(t1, min_i(a.1, b.1), max_i(a.1, b.1), a.0),
        !hf ==> t3 == row_dug(t2, min_i(a.0, b.0), max_i(a.0, b.0), b.1),
    ensures
        t3 == corridor_dug(t1, a, b, hf),
{
    assert(t3 =~= corridor_dug(t1, a, b, hf));
}

/// Carving room `r` and then, when there is a room before it, the corridor from that
/// room's centre, digs out what `dig` says.
proof fn lemma_dig_compose(t0: Seq<TileType>, rooms: Seq<Rect>, r: Rect, hf: bool)
    ensures
        rooms.len() == 0 ==> room_dug(t0, r) == dig(t0, rooms, r, hf),
        rooms.len() > 0 ==> corridor_dug(room_dug(t0, r), rect_center(rooms.last()), rect_center(r), hf)
            == dig(t0, rooms, r, hf),
{
    if rooms.len() == 0 {
        assert(room_dug(t0, r) =~= dig(t0, rooms, r, hf));
    } else {
        assert(corridor_dug(room_dug(t0, r), rect_center(rooms.last()), rect_center(r), hf) =~= dig(t0, rooms, r, hf));
    }
}

/// Putting the way down in the centre of the last room keeps every walkable cell
/// accounted for: that centre is inside the room.
proof fn lemma_stairs_explained(t: Seq<TileType>, new: Seq<TileType>, rooms: Seq<Rect>)
    requires
        all_explained(t, rooms),
        t.len() == MAPCOUNT,
        rooms.len() > 0,
        room_in_bounds(rooms.last(), MAPWIDTH as int, MAPHEIGHT as int),
        MIN_SIZE <= rooms.last().x2 - rooms.last().x1,
        MIN_SIZE <= rooms.last().y2 - rooms.last().y1,
        new == t.update(cell(MAPWIDTH as int, rect_center(rooms.last()).0, rect_center(rooms.last()).1), TileType::DownStairs),
    ensures
        all_explained(new, rooms),
{
    let (cx, cy) = rect_center(rooms.last());
    let s = cell(MAPWIDTH as int, cx, cy);
    let k = rooms.len() - 1;
    assert forall|i: int| 0 <= i < new.len() && #[trigger] new[i] != TileType::Wall
        implies exists|j: int| #[trigger] explained_by(rooms, j, i % 80, i / 80) by {
        if i == s {
            lemma_cell_unique(i, cx, cy);
            assert(room_cell(rooms[k], cx, cy));
            assert(explained_by(rooms, k, i % 80, i / 80));
        } else {
            assert(t[i] != TileType::Wall);
        }
    }
}

/// What every generated level satisfies: the layout, whatever the dice gave. Its rooms
/// are laid out as `rooms_so_far` says; there is at least one room and at most
/// `MAX_ROOMS`; the way down is in the centre of the last room and nowhere else; the
/// outer ring is wall; and every walkable cell is inside a room or on a corridor
/// between consecutive rooms.
pub open spec fn generated_level(map: GameMap, new_depth: i32) -> bool {
    let rooms = map.rooms@;
    let t = map.tiles@;
    let stairs = cell(MAPWIDTH as int, rect_center(rooms.last()).0, rect_center(rooms.last()).1);
    &&& rooms_so_far(map, new_depth)
    &&& 1 <= rooms.len() <= MAX_ROOMS
    &&& t[stairs] == TileType::DownStairs
    &&& forall|i: int| 0 <= i < t.len() ==> (#[trigger] t[i] == TileType::DownStairs <==> i == stairs)
    &&& border_walls(t)
    &&& all_explained(t, rooms)
}

/// The part of `generated_level` that holds after each attempt to place a room.
pub open spec fn rooms_so_far(map: GameMap, new_depth: i32) -> bool {
    let rooms = map.rooms@;
    let t = map.tiles@;
    &&& map.wf()
    &&& map.width == MAPWIDTH
    &&& map.height == MAPHEIGHT
    &&& map.depth == new_depth
    &&& t.len() == MAPCOUNT
    &&& forall|i: int| 0 <= i < t.len() ==> !(#[trigger] map.revealed_tiles@[i])
    &&& forall|i: int| 0 <= i < t.len() ==> !(#[trigger] map.visible_tiles@[i])
    &&& forall|i: int| 0 <= i < t.len() ==> !(#[trigger] map.blocked@[i])
    &&& forall|i: int| 0 <= i < t.len() ==> (#[trigger] map.tile_content@[i])@.len() == 0
    &&& forall|k: int| 0 <= k < rooms.len() ==> {
        &&& room_in_bounds(#[trigger] rooms[k], MAPWIDTH as int, MAPHEIGHT as int)
        &&& MIN_SIZE <= rooms[k].x2 - rooms[k].x1 < MAX_SIZE
        &&& MIN_SIZE <= rooms[k].y2 - rooms[k].y1 < MAX_SIZE
        &&& room_carved(t, MAPWIDTH as int, rooms[k])
    }
    &&& forall|a: int, b: int| 0 <= a < b < rooms.len() ==> !rects_overlap(#[trigger] rooms[a], #[trigger] rooms[b])
    &&& forall|k: int| 0 <= k < rooms.len() - 1
        ==> rooms_joined(t, MAPWIDTH as int, #[trigger] rooms[k], rooms[k + 1])
}

/// A level while its rooms are being placed: the rooms so far are laid out as
/// `rooms_so_far` says, the outer ring is wall, there is no way down yet, and every
/// walkable cell is inside a room or on a corridor between consecutive rooms.
pub open spec fn level_in_progress(map: GameMap) -> bool {
    &&& rooms_so_far(map, map.depth)
    &&& border_walls(map.tiles@)
    &&& no_stairs(map.tiles@)
    &&& all_explained(map.tiles@, map.rooms@)
}

/// `map` is the level that the attempts `ds`, all within the dice's ranges, build from
/// solid rock, with the way down then put in the centre of the last room.
pub open spec fn built_from(map: GameMap, ds: Seq<RoomDraw>) -> bool {
    &&& ds.len() == MAX_ROOMS
    &&& forall|k: int| 0 <= k < ds.len() ==> draw_in_range(#[trigger] ds[k])
    &&& map.rooms@ == level_after(ds).1
    &&& map.tiles@ == with_stairs(level_after(ds).0, level_after(ds).1)
}

/// Putting the way down on a cell off the outer ring of a map with no way down leaves
/// the ring walled and makes that cell the only way down.
proof fn lemma_stairs_placed(t: Seq<TileType>, new: Seq<TileType>, cx: int, cy: int)
    requires
        border_walls(t),
        no_stairs(t),
        t.len() == MAPCOUNT,
        1 <= cx <= MAPWIDTH - 2,
        1 <= cy <= MAPHEIGHT - 2,
        new == t.update(cell(MAPWIDTH as int, cx, cy), TileType::DownStairs),
    ensures
        border_walls(new),
        new[cell(MAPWIDTH as int, cx, cy)] == TileType::DownStairs,
        forall|i: int| 0 <= i < new.len() ==> (#[trigger] new[i] == TileType::DownStairs <==> i == cell(MAPWIDTH as int, cx, cy)),
{
    let s = cell(MAPWIDTH as int, cx, cy);
    assert forall|x: int, y: int| #[trigger] on_border(x, y) implies new[cell(MAPWIDTH as int, x, y)] == TileType::Wall by {
        assert(cell(MAPWIDTH as int, x, y) != s);
        assert(t[cell(MAPWIDTH as int, x, y)] == TileType::Wall);
    }
    assert forall|i: int| 0 <= i < new.len() implies (#[trigger] new[i] == TileType::DownStairs <==> i == s) by {
        if i != s {
            assert(t[i] != TileType::DownStairs);
        }
    }
}

/// Putting the way down in the centre of the last room of a level in progress that has
/// at most `MAX_ROOMS` rooms, and at least one, gives a generated level.
#[verifier::rlimit(60)]
proof fn lemma_level_finished(m0: GameMap, map: GameMap)
    requires
        level_in_progress(m0),
        1 <= m0.rooms@.len() <= MAX_ROOMS,
        map.rooms@ == m0.rooms@,
        map.same_bookkeeping(&m0),
        map.tiles@ == m0.tiles@.update(
            cell(MAPWIDTH as int, rect_center(m0.rooms@.last()).0, rect_center(m0.rooms@.last()).1),
            TileType::DownStairs,
        ),
    ensures
        generated_level(map, m0.depth),
{
    let rooms = m0.rooms@;
    let last = rooms.last();
    assert(rooms[rooms.len() - 1] == last);
    assert(room_in_bounds(last, MAPWIDTH as int, MAPHEIGHT as int));
    lemma_cell_in_grid(MAPWIDTH as int, MAPHEIGHT as int, rect_center(last).0, rect_center(last).1);
    assert(map.same_but_tiles(&m0));
    assert(only_opened(m0.tiles@, map.tiles@));
    lemma_rooms_kept(m0, map, m0.depth);
    lemma_stairs_explained(m0.tiles@, map.tiles@, rooms);
    lemma_stairs_placed(m0.tiles@, map.tiles@, rect_center(last).0, rect_center(last).1);
}

/// Whether `(x, y)` is a cell of the outer ring of the generated map.
pub open spec fn on_border(x: int, y: int) -> bool {
    &&& 0 <= x < MAPWIDTH
    &&& 0 <= y < MAPHEIGHT
    &&& (x == 0 || x == MAPWIDTH - 1 || y == 0 || y == MAPHEIGHT - 1)
}

/// Every cell of the generated map's outer ring is a wall.
pub open spec fn border_walls(t: Seq<TileType>) -> bool {
    forall|x: int, y: int| #[trigger] on_border(x, y) ==> t[cell(MAPWIDTH as int, x, y)] == TileType::Wall
}

/// Carving a room that lies inside the generated map leaves its outer ring walled.
proof fn lemma_border_after_room(old: Seq<TileType>, new: Seq<TileType>, room: Rect)
    requires
        border_walls(old),
        old.len() == MAPCOUNT,
        room_in_bounds(room, MAPWIDTH as int, MAPHEIGHT as int),
        forall|i: int| 0 <= i < old.len()
            && (forall|x: int, y: int| room_cell(room, x, y) ==> cell(MAPWIDTH as int, x, y) != i)
            ==> #[trigger] new[i] == old[i],
    ensures
        border_walls(new),
{
    assert forall|x: int, y: int| #[trigger] on_border(x, y) implies new[cell(MAPWIDTH as int, x, y)] == TileType::Wall by {
        let i = cell(MAPWIDTH as int, x, y);
        assert forall|a: int, b: int| room_cell(room, a, b) implies cell(MAPWIDTH as int, a, b) != i by {}
        assert(new[i] == old[i]);
    }
}

/// Digging a corridor along a row inside the generated map leaves its outer ring walled.
proof fn lemma_border_after_hline(old: Seq<TileType>, new: Seq<TileType>, lo: int, hi: int, y0: int)
    requires
        border_walls(old),
        old.len() == MAPCOUNT,
        1 <= lo,
        hi <= MAPWIDTH - 2,
        1 <= y0 <= MAPHEIGHT - 2,
        forall|i: int| 0 <= i < old.len()
            && (forall|x: int| lo <= x <= hi ==> cell(MAPWIDTH as int, x, y0) != i)
            ==> #[trigger] new[i] == old[i],
    ensures
        border_walls(new),
{
    assert forall|x: int, y: int| #[trigger] on_border(x, y) implies new[cell(MAPWIDTH as int, x, y)] == TileType::Wall by {
        let i = cell(MAPWIDTH as int, x, y);
        assert forall|a: int| lo <= a <= hi implies cell(MAPWIDTH as int, a, y0) != i by {}
        assert(new[i] == old[i]);
    }
}

/// Digging a corridor along a column inside the generated map leaves its outer ring
/// walled.
proof fn lemma_border_after_vline(old: Seq<TileType>, new: Seq<TileType>, lo: int, hi: int, x0: int)
    requires
        border_walls(old),
        old.len() == MAPCOUNT,
        1 <= lo,
        hi <= MAPHEIGHT - 2,
        1 <= x0 <= MAPWIDTH - 2,
        forall|i: int| 0 <= i < old.len()
            && (forall|y: int| lo <= y <= hi ==> cell(MAPWIDTH as int, x0, y) != i)
            ==> #[trigger] new[i] == old[i],
    ensures
        border_walls(new),
{
    assert forall|x: int, y: int| #[trigger] on_border(x, y) implies new[cell(MAPWIDTH as int, x, y)] == TileType::Wall by {
        let i = cell(MAPWIDTH as int, x, y);
        assert forall|b: int| lo <= b <= hi implies cell(MAPWIDTH as int, x0, b) != i by {}
        assert(new[i] == old[i]);
    }
}

/// A row segment inside the generated map whose cells were all made floor is open.
proof fn lemma_hline_dug(t: Seq<TileType>, xa: int, xb: int, y: int)
    requires
        t.len() == MAPCOUNT,
        1 <= min_i(xa, xb),
        max_i(xa, xb) <= MAPWIDTH - 2,
        1 <= y <= MAPHEIGHT - 2,
        forall|x: int| min_i(xa, xb) <= x <= max_i(xa, xb) && 0 < cell(MAPWIDTH as int, x, y) < t.len()
            ==> #[trigger] t[cell(MAPWIDTH as int, x, y)] == TileType::Floor,
    ensures
        hline_open(t, MAPWIDTH as int, xa, xb, y),
{
    assert forall|x: int| min_i(xa, xb) <= x <= max_i(xa, xb) implies 0 <= #[trigger] cell(MAPWIDTH as int, x, y) < t.len()
        && t[cell(MAPWIDTH as int, x, y)] != TileType::Wall by {
        assert(0 < cell(MAPWIDTH as int, x, y) < t.len());
    }
}

/// A column segment inside the generated map whose cells were all made floor is open.
proof fn lemma_vline_dug(t: Seq<TileType>, ya: int, yb: int, x: int)
    requires
        t.len() == MAPCOUNT,
        1 <= min_i(ya, yb),
        max_i(ya, yb) <= MAPHEIGHT - 2,
        1 <= x <= MAPWIDTH - 2,
        forall|y: int| min_i(ya, yb) <= y <= max_i(ya, yb) && 0 < cell(MAPWIDTH as int, x, y) < t.len()
            ==> #[trigger] t[cell(MAPWIDTH as int, x, y)] == TileType::Floor,
    ensures
        vline_open(t, MAPWIDTH as int, ya, yb, x),
{
    assert forall|y: int| min_i(ya, yb) <= y <= max_i(ya, yb) implies 0 <= #[trigger] cell(MAPWIDTH as int, x, y) < t.len()
        && t[cell(MAPWIDTH as int, x, y)] != TileType::Wall by {
        assert(0 < cell(MAPWIDTH as int, x, y) < t.len());
    }
}

/// Opening cells keeps what `rooms_so_far` says of the rooms.
proof fn lemma_rooms_kept(old: GameMap, new: GameMap, new_depth: i32)
    requires
        rooms_so_far(old, new_depth),
        new.same_but_tiles(&old),
        only_opened(old.tiles@, new.tiles@),
    ensures
        rooms_so_far(new, new_depth),
{
    let rooms = old.rooms@;
    assert forall|k: int| 0 <= k < rooms.len() implies room_carved(new.tiles@, MAPWIDTH as int, #[trigger] rooms[k]) by {
        lemma_carved_kept(old.tiles@, new.tiles@, MAPWIDTH as int, rooms[k]);
    }
    assert forall|k: int| 0 <= k < rooms.len() - 1 implies rooms_joined(new.tiles@, MAPWIDTH as int, #[trigger] rooms[k], rooms[k + 1]) by {
        lemma_joined_kept(old.tiles@, new.tiles@, MAPWIDTH as int, rooms[k], rooms[k + 1]);
    }
}

/// A cell inside a `w` by `h` grid has an index inside the grid.
pub proof fn lemma_cell_in_grid(w: int, h: int, x: int, y: int)
    requires
        0 <= x < w,
        0 <= y < h,
    ensures
        0 <= cell(w, x, y) < w * h,
{
    assert(0 <= cell(w, x, y) < w * h) by (nonlinear_arith)
        requires
            0 <= x < w,
            0 <= y < h,
    ;
}

/// `new` differs from `old` only where it was made floor.
pub open spec fn only_floored(old: Seq<TileType>, new: Seq<TileType>) -> bool {
    &&& new.len() == old.len()
    &&& forall|i: int| 0 <= i < new.len() ==> new[i] == old[i] || new[i] == TileType::Floor
}

/// No cell is the way down.
pub open spec fn no_stairs(t: Seq<TileType>) -> bool {
    forall|i: int| 0 <= i < t.len() ==> #[trigger] t[i] != TileType::DownStairs
}

impl GameMap {
    /// The grid is `width` by `height`, and every per-cell vector has one entry per cell.
    pub open spec fn wf(&self) -> bool {
        &&& 0 < self.width
        &&& 0 < self.height
        &&& self.width * self.height <= usize::MAX
        &&& self.tiles@.len() == self.width * self.height
        &&& self.revealed_tiles@.len() == self.tiles@.len()
        &&& self.visible_tiles@.len() == self.tiles@.len()
        &&& self.blocked@.len() == self.tiles@.len()
        &&& self.tile_content@.len() == self.tiles@.len()
    }

    /// Every field but `tiles` is the same in `self` and `other`.
    pub open spec fn same_but_tiles(&self, other: &GameMap) -> bool {
        &&& self.rooms@ == other.rooms@
        &&& self.width == other.width
        &&& self.height == other.height
        &&& self.revealed_tiles@ == other.revealed_tiles@
        &&& self.visible_tiles@ == other.visible_tiles@
        &&& self.blocked@ == other.blocked@
        &&& self.depth == other.depth
        &&& self.tile_content@ == other.tile_content@
    }

    /// Every field but `tiles` and `rooms` is the same in `self` and `other`.
    pub open spec fn same_bookkeeping(&self, other: &GameMap) -> bool {
        &&& self.width == other.width
        &&& self.height == other.height
        &&& self.revealed_tiles@ == other.revealed_tiles@
        &&& self.visible_tiles@ == other.visible_tiles@
        &&& self.blocked@ == other.blocked@
        &&& self.depth == other.depth
        &&& self.tile_content@ == other.tile_content@
    }

    /// The index of cell `(x, y)` in the map's per-cell vectors, computed on the
    /// coordinates and width converted to `usize` (a negative value wraps, as an `as`
    /// conversion does).
    pub fn xy_idx(&self, x: i32, y: i32) -> (idx: usize)
        requires
            (y as usize) * (self.width as usize) + (x as usize) <= usize::MAX,
        ensures
            idx == (y as usize) * (self.width as usize) + (x as usize),
            0 <= x && 0 <= y && 0 <= self.width ==> idx == cell(self.width as int, x as int, y as int),
    {
        (y as usize * self.width as usize) + x as usize
    }

    /// Turns the inside of `room` into floor.
    fn apply_room_to_map(&mut self, room: &Rect)
        requires
            old(self).wf(),
            -1 <= room.x1,
            -1 <= room.y1,
            room.x1 < room.x2 && room.y1 < room.y2 ==> cell(old(self).width as int, room.x2 as int, room.y2 as int) < old(self).tiles@.len(),
        ensures
            final(self).wf(),
            final(self).same_but_tiles(old(self)),
            only_opened(old(self).tiles@, final(self).tiles@),
            only_floored(old(self).tiles@, final(self).tiles@),
            forall|x: int, y: int| room_cell(*room, x, y)
                ==> #[trigger] final(self).tiles@[cell(old(self).width as int, x, y)] == TileType::Floor,
            forall|i: int| 0 <= i < old(self).tiles@.len()
                && (forall|x: int, y: int| room_cell(*room, x, y) ==> cell(old(self).width as int, x, y) != i)
                ==> #[trigger] final(self).tiles@[i] == old(self).tiles@[i],
    {
        let ghost w = self.width as int;
        proof {
            lemma_room_cells_in_range(*room, w, old(self).tiles@.len() as int);
        }
        let mut y: i64 = room.y1 as i64 + 1;
        while y <= room.y2 as i64
            invariant
                self.wf(),
                self.same_but_tiles(old(self)),
                w == self.width,
                -1 <= room.x1,
                -1 <= room.y1,
                room.x1 < room.x2 && room.y1 < room.y2 ==> cell(w, room.x2 as int, room.y2 as int) < old(self).tiles@.len(),
                room.y1 + 1 <= y,
                forall|xx: int, yy: int| #[trigger] room_cell(*room, xx, yy) ==> 0 <= cell(w, xx, yy) < old(self).tiles@.len(),
                y <= room.y2 + 1 || y == room.y1 + 1,
                only_opened(old(self).tiles@, self.tiles@),
                only_floored(old(self).tiles@, self.tiles@),
                forall|x: int, yy: int| room_cell(*room, x, yy) && yy < y
                    ==> #[trigger] self.tiles@[cell(w, x, yy)] == TileType::Floor,
                forall|i: int| 0 <= i < old(self).tiles@.len()
                    && (forall|x: int, yy: int| room_cell(*room, x, yy) ==> cell(w, x, yy) != i)
                    ==> #[trigger] self.tiles@[i] == old(self).tiles@[i],
            decreases room.y2 as i64 + 1 - y,
        {
            let mut x: i64 = room.x1 as i64 + 1;
            while x <= room.x2 as i64
                invariant
                    self.wf(),
                    self.same_but_tiles(old(self)),
                    w == self.width,
                    -1 <= room.x1,
                    -1 <= room.y1,
                    room.x1 < room.x2 && room.y1 < room.y2 ==> cell(w, room.x2 as int, room.y2 as int) < old(self).tiles@.len(),
                    room.y1 + 1 <= y <= room.y2,
                    forall|xx: int, yy: int| #[trigger] room_cell(*room, xx, yy) ==> 0 <= cell(w, xx, yy) < old(self).tiles@.len(),
                    room.x1 + 1 <= x,
                    x <= room.x2 + 1 || x == room.x1 + 1,
                    only_opened(old(self).tiles@, self.tiles@),
                    only_floored(old(self).tiles@, self.tiles@),
                    forall|xx: int, yy: int| room_cell(*room, xx, yy) && (yy < y || (yy == y && xx < x))
                        ==> #[trigger] self.tiles@[cell(w, xx, yy)] == TileType::Floor,
                    forall|i: int| 0 <= i < old(self).tiles@.len()
                        && (forall|xx: int, yy: int| room_cell(*room, xx, yy) ==> cell(w, xx, yy) != i)
                        ==> #[trigger] self.tiles@[i] == old(self).tiles@[i],
                decreases room.x2 as i64 + 1 - x,
            {
                assert(room_cell(*room, x as int, y as int));
                let idx = self.xy_idx(x as i32, y as i32);
                self.tiles.set(idx, TileType::Floor);
                x = x + 1;
            }
            y = y + 1;
        }
    }

    /// Turns the cells of row `y` between columns `x1` and `x2` (both included) into
    /// floor, leaving out the first cell of the map and any index past its end.
    fn apply_horizontal_tunnel(&mut self, x1: i32, x2: i32, y: i32)
        requires
            old(self).wf(),
            0 <= min_i(x1 as int, x2 as int),
            0 <= y,
            cell(old(self).width as int, max_i(x1 as int, x2 as int), y as int) <= usize::MAX,
        ensures
            final(self).wf(),
            final(self).same_but_tiles(old(self)),
            only_opened(old(self).tiles@, final(self).tiles@),
            only_floored(old(self).tiles@, final(self).tiles@),
            forall|x: int| min_i(x1 as int, x2 as int) <= x <= max_i(x1 as int, x2 as int)
                && 0 < cell(old(self).width as int, x, y as int) < old(self).tiles@.len()
                ==> #[trigger] final(self).tiles@[cell(old(self).width as int, x, y as int)] == TileType::Floor,
            forall|i: int| 0 <= i < old(self).tiles@.len()
                && (forall|x: int| min_i(x1 as int, x2 as int) <= x <= max_i(x1 as int, x2 as int)
                    ==> cell(old(self).width as int, x, y as int) != i)
                ==> #[trigger] final(self).tiles@[i] == old(self).tiles@[i],
    {
        let ghost w = self.width as int;
        let lo: i32 = if x1 < x2 { x1 } else { x2 };
        let hi: i32 = if x1 < x2 { x2 } else { x1 };
        let total = self.width as usize * self.height as usize;
        let mut x: i64 = lo as i64;
        while x <= hi as i64
            invariant
                self.wf(),
                self.same_but_tiles(old(self)),
                w == self.width,
                total == old(self).tiles@.len(),
                lo == min_i(x1 as int, x2 as int),
                hi == max_i(x1 as int, x2 as int),
                0 <= lo <= x <= hi + 1,
                0 <= y,
                cell(w, hi as int, y as int) <= usize::MAX,
                only_opened(old(self).tiles@, self.tiles@),
                only_floored(old(self).tiles@, self.tiles@),
                forall|xx: int| lo <= xx < x && 0 < cell(w, xx, y as int) < old(self).tiles@.len()
                    ==> #[trigger] self.tiles@[cell(w, xx, y as int)] == TileType::Floor,
                forall|i: int| 0 <= i < old(self).tiles@.len()
                    && (forall|xx: int| lo <= xx <= hi ==> cell(w, xx, y as int) != i)
                    ==> #[trigger] self.tiles@[i] == old(self).tiles@[i],
            decreases hi as i64 + 1 - x,
        {
            let idx = self.xy_idx(x as i32, y);
            if idx > 0 && idx < total {
                self.tiles.set(idx, TileType::Floor);
            }
            x = x + 1;
        }
    }

    /// Turns the cells of column `x` between rows `y1` and `y2` (both included) into
    /// floor, leaving out the first cell of the map and any index past its end.
    fn apply_vertical_tunnel(&mut self, y1: i32, y2: i32, x: i32)
        requires
            old(self).wf(),
            0 <= min_i(y1 as int, y2 as int),
            0 <= x,
            cell(old(self).width as int, x as int, max_i(y1 as int, y2 as int)) <= usize::MAX,
        ensures
            final(self).wf(),
            final(self).same_but_tiles(old(self)),
            only_opened(old(self).tiles@, final(self).tiles@),
            only_floored(old(self).tiles@, final(self).tiles@),
            forall|y: int| min_i(y1 as int, y2 as int) <= y <= max_i(y1 as int, y2 as int)
                && 0 < cell(old(self).width as int, x as int, y) < old(self).tiles@.len()
                ==> #[trigger] final(self).tiles@[cell(old(self).width as int, x as int, y)] == TileType::Floor,
            forall|i: int| 0 <= i < old(self).tiles@.len()
                && (forall|y: int| min_i(y1 as int, y2 as int) <= y <= max_i(y1 as int, y2 as int)
                    ==> cell(old(self).width as int, x as int, y) != i)
                ==> #[trigger] final(self).tiles@[i] == old(self).tiles@[i],
    {
        let ghost w = self.width as int;
        let lo: i32 = if y1 < y2 { y1 } else { y2 };
        let hi: i32 = if y1 < y2 { y2 } else { y1 };
        let total = self.width as usize * self.height as usize;
        let mut y: i64 = lo as i64;
        while y <= hi as i64
            invariant
                self.wf(),
                self.same_but_tiles(old(self)),
                w == self.width,
                total == old(self).tiles@.len(),
                lo == min_i(y1 as int, y2 as int),
                hi == max_i(y1 as int, y2 as int),
                0 <= lo <= y <= hi + 1,
                0 <= x,
                cell(w, x as int, hi as int) <= usize::MAX,
                only_opened(old(self).tiles@, self.tiles@),
                only_floored(old(self).tiles@, self.tiles@),
                forall|yy: int| lo <= yy < y && 0 < cell(w, x as int, yy) < old(self).tiles@.len()
                    ==> #[trigger] self.tiles@[cell(w, x as int, yy)] == TileType::Floor,
                forall|i: int| 0 <= i < old(self).tiles@.len()
                    && (forall|yy: int| lo <= yy <= hi ==> cell(w, x as int, yy) != i)
                    ==> #[trigger] self.tiles@[i] == old(self).tiles@[i],
            decreases hi as i64 + 1 - y,
        {
            assert(cell(w, x as int, y as int) <= cell(w, x as int, hi as int)) by (nonlinear_arith)
                requires
                    0 < w,
                    y <= hi,
            ;
            let idx = self.xy_idx(x, y as i32);
            if idx > 0 && idx < total {
                self.tiles.set(idx, TileType::Floor);
            }
            y = y + 1;
        }
    }

    /// Digs the L-shaped corridor from the centre of `prev` to the centre of `next`:
    /// along `prev`'s row and then `next`'s column when `horizontal_first`, else along
    /// `prev`'s column and then `next`'s row.
    #[verifier::rlimit(40)]
    fn carve_corridor(&mut self, prev: Rect, next: Rect, horizontal_first: bool)
        requires
            old(self).wf(),
            old(self).width == MAPWIDTH,
            old(self).height == MAPHEIGHT,
            room_in_bounds(prev, MAPWIDTH as int, MAPHEIGHT as int),
            room_in_bounds(next, MAPWIDTH as int, MAPHEIGHT as int),
            MIN_SIZE <= prev.x2 - prev.x1,
            MIN_SIZE <= prev.y2 - prev.y1,
            MIN_SIZE <= next.x2 - next.x1,
            MIN_SIZE <= next.y2 - next.y1,
            border_walls(old(self).tiles@),
        ensures
            final(self).wf(),
            final(self).same_but_tiles(old(self)),
            only_opened(old(self).tiles@, final(self).tiles@),
            only_floored(old(self).tiles@, final(self).tiles@),
            border_walls(final(self).tiles@),
            rooms_joined(final(self).tiles@, MAPWIDTH as int, prev, next),
            final(self).tiles@ == corridor_dug(old(self).tiles@, rect_center(prev), rect_center(next), horizontal_first),
    {
        let ghost t1 = self.tiles@;
        let (new_x, new_y) = next.center();
        let (prev_x, prev_y) = prev.center();
        let ghost lx = min_i(prev_x as int, new_x as int);
        let ghost hx = max_i(prev_x as int, new_x as int);
        let ghost ly = min_i(prev_y as int, new_y as int);
        let ghost hy = max_i(prev_y as int, new_y as int);
        let ghost mut t2 = t1;
        proof {
            lemma_cell_in_grid(MAPWIDTH as int, MAPHEIGHT as int, hx, prev_y as int);
            lemma_cell_in_grid(MAPWIDTH as int, MAPHEIGHT as int, hx, new_y as int);
            lemma_cell_in_grid(MAPWIDTH as int, MAPHEIGHT as int, prev_x as int, hy);
            lemma_cell_in_grid(MAPWIDTH as int, MAPHEIGHT as int, new_x as int, hy);
        }
        if horizontal_first {
            self.apply_horizontal_tunnel(prev_x, new_x, prev_y);
            proof {
                t2 = self.tiles@;
                lemma_border_after_hline(t1, t2, lx, hx, prev_y as int);
                lemma_hline_dug(t2, prev_x as int, new_x as int, prev_y as int);
                lemma_row_exact(t1, t2, lx, hx, prev_y as int);
            }
            self.apply_vertical_tunnel(prev_y, new_y, new_x);
            proof {
                lemma_border_after_vline(t2, self.tiles@, ly, hy, new_x as int);
                lemma_hline_kept(t2, self.tiles@, MAPWIDTH as int, prev_x as int, new_x as int, prev_y as int);
                lemma_vline_dug(self.tiles@, prev_y as int, new_y as int, new_x as int);
                lemma_col_exact(t2, self.tiles@, ly, hy, new_x as int);
            }
        } else {
            self.apply_vertical_tunnel(prev_y, new_y, prev_x);
            proof {
                t2 = self.tiles@;
                lemma_border_after_vline(t1, t2, ly, hy, prev_x as int);
                lemma_vline_dug(t2, prev_y as int, new_y as int, prev_x as int);
                lemma_col_exact(t1, t2, ly, hy, prev_x as int);
            }
            self.apply_horizontal_tunnel(prev_x, new_x, new_y);
            proof {
                lemma_border_after_hline(t2, self.tiles@, lx, hx, new_y as int);
                lemma_vline_kept(t2, self.tiles@, MAPWIDTH as int, prev_y as int, new_y as int, prev_x as int);
                lemma_hline_dug(self.tiles@, prev_x as int, new_x as int, new_y as int);
                lemma_row_exact(t2, self.tiles@, lx, hx, new_y as int);
            }
        }
        proof {
            lemma_corridor_steps(t1, t2, self.tiles@, rect_center(prev), rect_center(next), horizontal_first);
        }
    }

    /// Carves `new_room` into the level and, when it is not the first room, joins its
    /// centre to the centre of the room placed before it by an L-shaped corridor, along
    /// the row first when `horizontal_first`, else along the column first; then records
    /// the room.
    #[verifier::rlimit(40)]
    fn add_room(&mut self, new_room: Rect, horizontal_first: bool)
        requires
            level_in_progress(*old(self)),
            room_in_bounds(new_room, MAPWIDTH as int, MAPHEIGHT as int),
            MIN_SIZE <= new_room.x2 - new_room.x1 < MAX_SIZE,
            MIN_SIZE <= new_room.y2 - new_room.y1 < MAX_SIZE,
            fits(old(self).rooms@, new_room),
        ensures
            level_in_progress(*final(self)),
            final(self).same_bookkeeping(old(self)),
            final(self).rooms@ == old(self).rooms@.push(new_room),
            final(self).tiles@ == dig(old(self).tiles@, old(self).rooms@, new_room, horizontal_first),
    {
        let ghost m0 = *self;
        let ghost d = m0.depth;
        self.apply_room_to_map(&new_room);
        assert(room_carved(self.tiles@, MAPWIDTH as int, new_room));
        proof {
            lemma_rooms_kept(m0, *self, d);
            lemma_border_after_room(m0.tiles@, self.tiles@, new_room);
            lemma_room_exact(m0.tiles@, self.tiles@, new_room);
            lemma_dig_compose(m0.tiles@, m0.rooms@, new_room, horizontal_first);
        }
        if self.rooms.len() > 0 {
            let ghost m1 = *self;
            let last = self.rooms.len() - 1;
            let prev = self.rooms[last];
            assert(room_in_bounds(prev, MAPWIDTH as int, MAPHEIGHT as int));
            self.carve_corridor(prev, new_room, horizontal_first);
            proof {
                lemma_rooms_kept(m1, *self, d);
                lemma_carved_kept(m1.tiles@, self.tiles@, MAPWIDTH as int, new_room);
                assert(m0.rooms@.last() == prev);
            }
        }
        self.rooms.push(new_room);
        proof {
            lemma_explained_step(m0.tiles@, m0.rooms@, new_room, horizontal_first, self.tiles@);
        }
    }

    /// Whether `room` overlaps none of the rooms of the level.
    pub fn room_fits(&self, room: &Rect) -> (ok: bool)
        ensures
            ok == fits(self.rooms@, *room),
    {
        let mut j: usize = 0;
        while j < self.rooms.len()
            invariant
                j <= self.rooms@.len(),
                forall|k: int| 0 <= k < j ==> !rects_overlap(*room, #[trigger] self.rooms@[k]),
            decreases self.rooms@.len() - j,
        {
            if room.intersect(&self.rooms[j]) {
                return false;
            }
            j = j + 1;
        }
        true
    }

    /// One attempt of the level generator to place a room: the room `w` wide and `h`
    /// high with its top-left corner at `(x, y)`. If it overlaps no room of the level,
    /// its inside becomes floor, it is joined to the centre of the room placed before it
    /// along the bend that `horizontal_first` picks (row first, else column first), and
    /// it is added to the rooms; otherwise the level stays as it was.
    pub fn place_room(&mut self, w: i32, h: i32, x: i32, y: i32, horizontal_first: bool)
        requires
            level_in_progress(*old(self)),
            draw_in_range(RoomDraw { w, h, x, y, horizontal_first }),
        ensures
            (final(self).tiles@, final(self).rooms@)
                == level_step((old(self).tiles@, old(self).rooms@), RoomDraw { w, h, x, y, horizontal_first }),
            level_in_progress(*final(self)),
            final(self).same_bookkeeping(old(self)),
    {
        let new_room = Rect::new(x, y, w, h);
        assert(new_room == draw_rect(RoomDraw { w, h, x, y, horizontal_first }));
        if self.room_fits(&new_room) {
            self.add_room(new_room, horizontal_first);
        }
    }

    /// Builds a new level: `MAX_ROOMS` attempts to place a randomly sized and placed
    /// room, each placed room joined to the one placed before it by a corridor, with the
    /// way down in the centre of the last room. The level is the one that
    /// `place_room`, applied in turn to some `MAX_ROOMS` draws within the dice's
    /// ranges, builds; and whatever the dice give, it satisfies `generated_level`.
    #[verifier::rlimit(60)]
    pub fn new_map_rooms_and_corridors(new_depth: i32) -> (map: GameMap)
        ensures
            generated_level(map, new_depth),
            exists|ds: Seq<RoomDraw>| #[trigger] built_from(map, ds),
    {
        let mut map = GameMap {
            tiles: filled_tiles(TileType::Wall, MAPCOUNT),
            rooms: Vec::new(),
            width: MAPWIDTH as i32,
            height: MAPHEIGHT as i32,
            revealed_tiles: cleared_flags(MAPCOUNT),
            visible_tiles: cleared_flags(MAPCOUNT),
            blocked: cleared_flags(MAPCOUNT),
            tile_content: empty_contents(MAPCOUNT),
            depth: new_depth,
        };
        assert(map.width == 80 && map.height == 43);
        assert(MAPCOUNT == 3440);
        assert(map.tiles@.len() == map.width * map.height);
        assert(map.wf());
        assert(border_walls(map.tiles@));
        assert(no_stairs(map.tiles@));
        let ghost mut ds: Seq<RoomDraw> = Seq::empty();
        assert(map.tiles@ =~= empty_level().0);
        assert(map.rooms@ =~= empty_level().1);
        let mut rng = new_rng();
        let mut i: i32 = 0;
        while i < MAX_ROOMS
            invariant
                0 <= i <= MAX_ROOMS,
                ds.len() == i,
                forall|k: int| 0 <= k < ds.len() ==> draw_in_range(#[trigger] ds[k]),
                (map.tiles@, map.rooms@) == level_after(ds),
                level_in_progress(map),
                map.depth == new_depth,
                map.width == MAPWIDTH,
                map.height == MAPHEIGHT,
                map.rooms@.len() <= i,
                i > 0 ==> map.rooms@.len() >= 1,
            decreases MAX_ROOMS - i,
        {
            let w = rng_range(&mut rng, MIN_SIZE, MAX_SIZE);
            let h = rng_range(&mut rng, MIN_SIZE, MAX_SIZE);
            let (x_faces, y_faces) = corner_dice(map.width, map.height, w, h);
            let x = corner_from_roll(roll_dice(&mut rng, 1, x_faces));
            let y = corner_from_roll(roll_dice(&mut rng, 1, y_faces));
            let mut horizontal_first = false;
            if map.room_fits(&Rect::new(x, y, w, h)) && map.rooms.len() > 0 {
                horizontal_first = rng_range(&mut rng, 0, 2) == 1;
            }
            let ghost d = RoomDraw { w, h, x, y, horizontal_first };
            map.place_room(w, h, x, y, horizontal_first);
            proof {
                assert(ds.push(d).drop_last() =~= ds);
                ds = ds.push(d);
            }
            i = i + 1;
        }
        let last = map.rooms.len() - 1;
        let last_room = map.rooms[last];
        assert(room_in_bounds(last_room, MAPWIDTH as int, MAPHEIGHT as int));
        let stairs_position = last_room.center();
        let stairs_idx = map.xy_idx(stairs_position.0, stairs_position.1);
        let ghost m0 = map;
        map.tiles.set(stairs_idx, TileType::DownStairs);
        proof {
            lemma_level_finished(m0, map);
            assert(built_from(map, ds));
        }
        map
    }

    /// Whether cell `(x, y)` can be stepped onto.
    fn is_exit_valid(&self, x: i32, y: i32) -> (ok: bool)
        requires
            i32::MIN < self.width,
            i32::MIN < self.height,
            exit_in_bounds(*self, x as int, y as int),
        ensures
            ok == exit_ok(*self, x as int, y as int),
    {
        if x < 1 || x > self.width - 1 || y < 1 || y > self.height - 1 {
            return false;
        }
        assert(y as usize == y as int && x as usize == x as int && self.width as usize == self.width as int);
        assert(self.blocked@.len() == self.blocked.len());
        let idx = self.xy_idx(x, y);
        !self.blocked[idx]
    }

    /// Marks as blocked exactly the wall cells: each flag of `blocked` with a tile
    /// of the same index is set to whether that tile is a wall.
    pub fn populate_blocked(&mut self)
        requires
            old(self).tiles@.len() <= old(self).blocked@.len(),
        ensures
            final(self).tiles@ == old(self).tiles@,
            final(self).rooms@ == old(self).rooms@,
            final(self).width == old(self).width,
            final(self).height == old(self).height,
            final(self).revealed_tiles@ == old(self).revealed_tiles@,
            final(self).visible_tiles@ == old(self).visible_tiles@,
            final(self).depth == old(self).depth,
            final(self).tile_content@ == old(self).tile_content@,
            final(self).blocked@.len() == old(self).blocked@.len(),
            forall|i: int| 0 <= i < final(self).tiles@.len()
                ==> #[trigger] final(self).blocked@[i] == (final(self).tiles@[i] == TileType::Wall),
            forall|i: int| final(self).tiles@.len() <= i < final(self).blocked@.len()
                ==> #[trigger] final(self).blocked@[i] == old(self).blocked@[i],
    {
        let n = self.tiles.len();
        let mut i: usize = 0;
        while i < n
            invariant
                n == self.tiles@.len(),
                n <= self.blocked@.len(),
                i <= n,
                self.tiles@ == old(self).tiles@,
                self.rooms@ == old(self).rooms@,
                self.width == old(self).width,
                self.height == old(self).height,
                self.revealed_tiles@ == old(self).revealed_tiles@,
                self.visible_tiles@ == old(self).visible_tiles@,
                self.depth == old(self).depth,
                self.tile_content@ == old(self).tile_content@,
                self.blocked@.len() == old(self).blocked@.len(),
                forall|k: int| 0 <= k < i ==> #[trigger] self.blocked@[k] == (self.tiles@[k] == TileType::Wall),
                forall|k: int| i <= k < self.blocked@.len() ==> #[trigger] self.blocked@[k] == old(self).blocked@[k],
            decreases n - i,
        {
            let b = self.tiles[i] == TileType::Wall;
            self.blocked.set(i, b);
            i = i + 1;
        }
    }

    /// Forgets which entities stand on each cell.
    pub fn clear_content_index(&mut self)
        ensures
            final(self).tiles@ == old(self).tiles@,
            final(self).rooms@ == old(self).rooms@,
            final(self).width == old(self).width,
            final(self).height == old(self).height,
            final(self).revealed_tiles@ == old(self).revealed_tiles@,
            final(self).visible_tiles@ == old(self).visible_tiles@,
            final(self).blocked@ == old(self).blocked@,
            final(self).depth == old(self).depth,
            final(self).tile_content@.len() == old(self).tile_content@.len(),
            forall|i: int| 0 <= i < final(self).tile_content@.len()
                ==> (#[trigger] final(self).tile_content@[i])@.len() == 0,
    {
        let n = self.tile_content.len();
        let mut i: usize = 0;
        while i < n
            invariant
                n == self.tile_content@.len(),
                n == old(self).tile_content@.len(),
                i <= n,
                self.tiles@ == old(self).tiles@,
                self.rooms@ == old(self).rooms@,
                self.width == old(self).width,
                self.height == old(self).height,
                self.revealed_tiles@ == old(self).revealed_tiles@,
                self.visible_tiles@ == old(self).visible_tiles@,
                self.blocked@ == old(self).blocked@,
                self.depth == old(self).depth,
                forall|k: int| 0 <= k < i ==> (#[trigger] self.tile_content@[k])@.len() == 0,
            decreases n - i,
        {
            self.tile_content.set(i, Vec::new());
            i = i + 1;
        }
    }

    /// Whether the tile at `idx` blocks sight: only walls do.
    pub fn is_opaque(&self, idx: usize) -> (b: bool)
        requires
            idx < self.tiles@.len(),
        ensures
            b == (self.tiles@[idx as int] == TileType::Wall),
    {
        self.tiles[idx] == TileType::Wall
    }

    /// Appends the step onto `(x, y)` to `exits` if that cell can be stepped onto.
    fn push_exit_if_valid(&self, exits: &mut Vec<(usize, ExitKind)>, x: i32, y: i32, kind: ExitKind)
        requires
            i32::MIN < self.width,
            i32::MIN < self.height,
            exit_in_bounds(*self, x as int, y as int),
        ensures
            final(exits)@ == old(exits)@ + exit_if(
                exit_ok(*self, x as int, y as int),
                (cell(self.width as int, x as int, y as int) as usize, kind),
            ),
    {
        if self.is_exit_valid(x, y) {
            assert(y as usize == y as int && x as usize == x as int && self.width as usize == self.width as int);
            assert(self.blocked@.len() == self.blocked.len());
            let target = self.xy_idx(x, y);
            exits.push((target, kind));
        }
    }

    /// The cells one step from `idx` that can be stepped onto, with the kind of step.
    pub fn get_available_exits(&self, idx: usize) -> (exits: Vec<(usize, ExitKind)>)
        requires
            0 < self.width,
            i32::MIN < self.height,
            idx <= i32::MAX,
            (idx as int) / (self.width as int) < i32::MAX,
            exits_in_bounds(*self, idx as int),
        ensures
            exits@ == exits_from(*self, idx as int),
    {
        let mut exits: Vec<(usize, ExitKind)> = Vec::new();
        let x = idx as i32 % self.width;
        let y = idx as i32 / self.width;
        self.push_exit_if_valid(&mut exits, x - 1, y, ExitKind::Straight);
        self.push_exit_if_valid(&mut exits, x + 1, y, ExitKind::Straight);
        self.push_exit_if_valid(&mut exits, x, y - 1, ExitKind::Straight);
        self.push_exit_if_valid(&mut exits, x, y + 1, ExitKind::Straight);
        self.push_exit_if_valid(&mut exits, x - 1, y - 1, ExitKind::Diagonal);
        self.push_exit_if_valid(&mut exits, x + 1, y - 1, ExitKind::Diagonal);
        self.push_exit_if_valid(&mut exits, x - 1, y + 1, ExitKind::Diagonal);
        self.push_exit_if_valid(&mut exits, x + 1, y + 1, ExitKind::Diagonal);
        exits
    }

    /// The screen cells to draw for this map: every revealed tile, in index order,
    /// with its glyph and colour, placed on an 80-column screen.
    pub fn map_cells_to_draw(&self) -> (cells: Vec<MapCell>)
        requires
            self.tiles@.len() <= self.revealed_tiles@.len(),
            forall|i: int| 0 <= i < self.tiles@.len() && #[trigger] self.revealed_tiles@[i]
                ==> i < self.visible_tiles@.len(),
            self.tiles@.len() / 80 <= i32::MAX,
        ensures
            cells@ == drawn_cells(*self, self.tiles@.len() as int),
    {
        let mut cells: Vec<MapCell> = Vec::new();
        let mut y: i32 = 0;
        let mut x: i32 = 0;
        let n = self.tiles.len();
        let mut idx: usize = 0;
        while idx < n
            invariant
                n == self.tiles@.len(),
                n <= self.revealed_tiles@.len(),
                forall|i: int| 0 <= i < n && #[trigger] self.revealed_tiles@[i] ==> i < self.visible_tiles@.len(),
                n / 80 <= i32::MAX,
                idx <= n,
                x == idx % 80,
                y == idx / 80,
                cells@ == drawn_cells(*self, idx as int),
            decreases n - idx,
        {
            let tile = self.tiles[idx];
            if self.revealed_tiles[idx] {
                let c = match tile {
                    TileType::Floor => '.',
                    TileType::Wall => '#',
                    TileType::DownStairs => '>',
                };
                let glyph = crate::rng::to_cp437(c);
                let mut fg = match tile {
                    TileType::Floor => TileColor::Floor,
                    TileType::Wall => TileColor::Wall,
                    TileType::DownStairs => TileColor::DownStairs,
                };
                if !self.visible_tiles[idx] {
                    fg = match tile {
                        TileType::Floor => TileColor::RememberedFloor,
                        TileType::Wall => TileColor::RememberedOther,
                        TileType::DownStairs => TileColor::RememberedOther,
                    };
                }
                cells.push(MapCell { x, y, glyph, color: fg });
            }
            x = x + 1;
            if x > 79 {
                x = 0;
                y = y + 1;
            }
            idx = idx + 1;
        }
        cells
    }
}

/// Law: the index of a cell inside a grid gives back its column and row.
pub proof fn lemma_cell_round_trip(w: int, x: int, y: int)
    requires
        0 <= x < w,
        0 <= y,
    ensures
        cell(w, x, y) % w == x,
        cell(w, x, y) / w == y,
{
    vstd::arithmetic::div_mod::lemma_fundamental_div_mod_converse(cell(w, x, y), w, y, x);
}

/// Every step in `s` leads to a cell of the map that is not blocked.
pub open spec fn all_walkable(map: GameMap, s: Seq<(usize, ExitKind)>) -> bool {
    forall|k: int| 0 <= k < s.len() ==> {
        let t = (#[trigger] s[k]).0 as int;
        &&& 0 <= t < map.tiles@.len()
        &&& !map.blocked@[t]
    }
}

proof fn lemma_exit_if_walkable(map: GameMap, a: int, b: int, kind: ExitKind)
    requires
        map.wf(),
    ensures
        all_walkable(map, exit_if(exit_ok(map, a, b), (cell(map.width as int, a, b) as usize, kind))),
{
    if exit_ok(map, a, b) {
        lemma_cell_in_grid(map.width as int, map.height as int, a, b);
    }
}

proof fn lemma_concat_walkable(map: GameMap, s1: Seq<(usize, ExitKind)>, s2: Seq<(usize, ExitKind)>)
    requires
        all_walkable(map, s1),
        all_walkable(map, s2),
    ensures
        all_walkable(map, s1 + s2),
{
    assert forall|k: int| 0 <= k < (s1 + s2).len() implies {
        let t = (#[trigger] (s1 + s2)[k]).0 as int;
        &&& 0 <= t < map.tiles@.len()
        &&& !map.blocked@[t]
    } by {
        if k >= s1.len() {
            assert((s1 + s2)[k] == s2[k - s1.len()]);
        }
    }
}

/// Law: every exit from a cell leads to a cell of the map that is not blocked.
pub proof fn lemma_exits_walkable(map: GameMap, idx: int)
    requires
        map.wf(),
    ensures
        all_walkable(map, exits_from(map, idx)),
{
    let w = map.width as int;
    let x = idx % w;
    let y = idx / w;
    let e0 = exit_if(exit_ok(map, x - 1, y), (cell(w, x - 1, y) as usize, ExitKind::Straight));
    let e1 = exit_if(exit_ok(map, x + 1, y), (cell(w, x + 1, y) as usize, ExitKind::Straight));
    let e2 = exit_if(exit_ok(map, x, y - 1), (cell(w, x, y - 1) as usize, ExitKind::Straight));
    let e3 = exit_if(exit_ok(map, x, y + 1), (cell(w, x, y + 1) as usize, ExitKind::Straight));
    let e4 = exit_if(exit_ok(map, x - 1, y - 1), (cell(w, x - 1, y - 1) as usize, ExitKind::Diagonal));
    let e5 = exit_if(exit_ok(map, x + 1, y - 1), (cell(w, x + 1, y - 1) as usize, ExitKind::Diagonal));
    let e6 = exit_if(exit_ok(map, x - 1, y + 1), (cell(w, x - 1, y + 1) as usize, ExitKind::Diagonal));
    let e7 = exit_if(exit_ok(map, x + 1, y + 1), (cell(w, x + 1, y + 1) as usize, ExitKind::Diagonal));
    lemma_exit_if_walkable(map, x - 1, y, ExitKind::Straight);
    lemma_exit_if_walkable(map, x + 1, y, ExitKind::Straight);
    lemma_exit_if_walkable(map, x, y - 1, ExitKind::Straight);
    lemma_exit_if_walkable(map, x, y + 1, ExitKind::Straight);
    lemma_exit_if_walkable(map, x - 1, y - 1, ExitKind::Diagonal);
    lemma_exit_if_walkable(map, x + 1, y - 1, ExitKind::Diagonal);
    lemma_exit_if_walkable(map, x - 1, y + 1, ExitKind::Diagonal);
    lemma_exit_if_walkable(map, x + 1, y + 1, ExitKind::Diagonal);
    lemma_concat_walkable(map, e0, e1);
    lemma_concat_walkable(map, e0 + e1, e2);
    lemma_concat_walkable(map, e0 + e1 + e2, e3);
    lemma_concat_walkable(map, e0 + e1 + e2 + e3, e4);
    lemma_concat_walkable(map, e0 + e1 + e2 + e3 + e4, e5);
    lemma_concat_walkable(map, e0 + e1 + e2 + e3 + e4 + e5, e6);
    lemma_concat_walkable(map, e0 + e1 + e2 + e3 + e4 + e5 + e6, e7);
}

/// Law: on a generated level the centre of every room is walkable, so the player
/// (placed at the centre of the first room) and the way down (at the centre of the
/// last) stand on open ground inside the map.
pub proof fn lemma_room_centers_walkable(map: GameMap, new_depth: i32)
    requires
        generated_level(map, new_depth),
    ensures
        forall|k: int| 0 <= k < map.rooms@.len() ==> {
            let (cx, cy) = rect_center(#[trigger] map.rooms@[k]);
            &&& 0 <= cell(MAPWIDTH as int, cx, cy) < map.tiles@.len()
            &&& map.tiles@[cell(MAPWIDTH as int, cx, cy)] != TileType::Wall
        },
{
    assert forall|k: int| 0 <= k < map.rooms@.len() implies {
        let (cx, cy) = rect_center(#[trigger] map.rooms@[k]);
        &&& 0 <= cell(MAPWIDTH as int, cx, cy) < map.tiles@.len()
        &&& map.tiles@[cell(MAPWIDTH as int, cx, cy)] != TileType::Wall
    } by {
        let r = map.rooms@[k];
        let (cx, cy) = rect_center(r);
        assert(room_cell(r, cx, cy));
        assert(room_carved(map.tiles@, MAPWIDTH as int, r));
    }
}

} // verus!
