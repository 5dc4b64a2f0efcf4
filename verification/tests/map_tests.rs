use rusty_roguelike::map::{ExitKind, GameMap, TileColor, TileType, MAPCOUNT, MAPHEIGHT, MAPWIDTH};
use rusty_roguelike::rect::Rect;

fn small_map(width: i32, height: i32, tiles: Vec<TileType>) -> GameMap {
    let n = (width * height) as usize;
    assert_eq!(tiles.len(), n);
    GameMap {
        tiles,
        rooms: Vec::new(),
        width,
        height,
        revealed_tiles: vec![false; n],
        visible_tiles: vec![false; n],
        blocked: vec![false; n],
        depth: 1,
        tile_content: vec![Vec::new(); n],
    }
}

fn open_box(width: i32, height: i32) -> GameMap {
    let mut tiles = Vec::new();
    for y in 0..height {
        for x in 0..width {
            if x == 0 || y == 0 || x == width - 1 || y == height - 1 {
                tiles.push(TileType::Wall);
            } else {
                tiles.push(TileType::Floor);
            }
        }
    }
    small_map(width, height, tiles)
}

#[test]
fn xy_idx_is_row_major() {
    let map = open_box(5, 4);
    assert_eq!(map.xy_idx(0, 0), 0);
    assert_eq!(map.xy_idx(3, 2), 13);
    assert_eq!(map.xy_idx(4, 3), 19);
}

#[test]
fn populate_blocked_marks_walls() {
    let mut map = open_box(4, 3);
    map.populate_blocked();
    for i in 0..map.tiles.len() {
        assert_eq!(map.blocked[i], map.tiles[i] == TileType::Wall);
    }
    assert!(map.blocked[0]);
    assert!(!map.blocked[5]);
}

#[test]
fn clear_content_index_empties_every_cell() {
    let mut map = open_box(3, 3);
    map.tile_content[4].push(7);
    map.tile_content[0].push(1);
    map.tile_content[0].push(2);
    map.clear_content_index();
    assert_eq!(map.tile_content.len(), 9);
    assert!(map.tile_content.iter().all(|c| c.is_empty()));
}

#[test]
fn only_walls_are_opaque() {
    let map = open_box(3, 3);
    assert!(map.is_opaque(0));
    assert!(!map.is_opaque(4));
}

#[test]
fn exits_in_open_room() {
    let mut map = open_box(5, 5);
    map.populate_blocked();
    // centre cell (2, 2) of a 5x5 box: all eight neighbours are floor.
    let exits = map.get_available_exits(12);
    assert_eq!(
        exits,
        vec![
            (11, ExitKind::Straight),
            (13, ExitKind::Straight),
            (7, ExitKind::Straight),
            (17, ExitKind::Straight),
            (6, ExitKind::Diagonal),
            (8, ExitKind::Diagonal),
            (16, ExitKind::Diagonal),
            (18, ExitKind::Diagonal),
        ]
    );
}

#[test]
fn exits_skip_blocked_cells_and_first_row() {
    let mut map = open_box(5, 5);
    map.populate_blocked();
    map.blocked[13] = true;
    // cell (1, 1): left and up are on the outer ring, right (2,1) open, down (1,2) open.
    let exits = map.get_available_exits(6);
    assert_eq!(
        exits,
        vec![(7, ExitKind::Straight), (11, ExitKind::Straight), (12, ExitKind::Diagonal)]
    );
    // cell (2, 2) with (3, 2) blocked.
    let exits = map.get_available_exits(12);
    assert!(!exits.iter().any(|e| e.0 == 13));
    assert_eq!(exits.len(), 7);
}

#[test]
fn exits_allow_last_column_when_unblocked() {
    // The exit test accepts column width - 1 and row height - 1.
    let map = small_map(3, 3, vec![TileType::Floor; 9]);
    let exits = map.get_available_exits(4);
    assert!(exits.contains(&(5, ExitKind::Straight)));
    assert!(exits.contains(&(8, ExitKind::Diagonal)));
    assert!(!exits.contains(&(3, ExitKind::Straight)));
}

#[test]
fn map_cells_only_revealed_with_glyphs_and_colours() {
    let mut map = small_map(
        3,
        1,
        vec![TileType::Floor, TileType::Wall, TileType::DownStairs],
    );
    map.revealed_tiles = vec![true, true, false];
    map.visible_tiles = vec![true, false, false];
    let cells = map.map_cells_to_draw();
    assert_eq!(cells.len(), 2);
    assert_eq!((cells[0].x, cells[0].y, cells[0].glyph), (0, 0, 46));
    assert_eq!(cells[0].color, TileColor::Floor);
    assert_eq!((cells[1].x, cells[1].y, cells[1].glyph), (1, 0, 35));
    assert_eq!(cells[1].color, TileColor::RememberedOther);
}

#[test]
fn map_cells_wrap_at_eighty_columns() {
    let mut map = small_map(100, 1, vec![TileType::DownStairs; 100]);
    map.revealed_tiles = vec![true; 100];
    map.visible_tiles = vec![true; 100];
    let cells = map.map_cells_to_draw();
    assert_eq!(cells.len(), 100);
    assert_eq!((cells[79].x, cells[79].y), (79, 0));
    assert_eq!((cells[80].x, cells[80].y), (0, 1));
    assert_eq!(cells[85].glyph, 62);
    assert_eq!(cells[85].color, TileColor::DownStairs);
}

#[test]
fn remembered_floor_is_dimmed() {
    let mut map = small_map(1, 1, vec![TileType::Floor]);
    map.revealed_tiles = vec![true];
    let cells = map.map_cells_to_draw();
    assert_eq!(cells[0].color, TileColor::RememberedFloor);
}

fn center(r: &Rect) -> (i32, i32) {
    ((r.x1 + r.x2) / 2, (r.y1 + r.y2) / 2)
}

#[test]
fn generated_levels_keep_their_layout() {
    for depth in 1..20 {
        let map = GameMap::new_map_rooms_and_corridors(depth);
        assert_eq!(map.width, MAPWIDTH as i32);
        assert_eq!(map.height, MAPHEIGHT as i32);
        assert_eq!(map.depth, depth);
        assert_eq!(map.tiles.len(), MAPCOUNT);
        assert!(!map.rooms.is_empty() && map.rooms.len() <= 30);
        assert!(map.revealed_tiles.iter().all(|b| !b));
        for (a, r) in map.rooms.iter().enumerate() {
            assert!(0 <= r.x1 && r.x1 < r.x2 && r.x2 <= 78);
            assert!(0 <= r.y1 && r.y1 < r.y2 && r.y2 <= 41);
            assert!((6..10).contains(&(r.x2 - r.x1)));
            for b in (a + 1)..map.rooms.len() {
                assert!(!r.intersect(&map.rooms[b]));
            }
            for y in (r.y1 + 1)..=r.y2 {
                for x in (r.x1 + 1)..=r.x2 {
                    assert_ne!(map.tiles[map.xy_idx(x, y)], TileType::Wall);
                }
            }
        }
        for x in 0..80 {
            assert_eq!(map.tiles[map.xy_idx(x, 0)], TileType::Wall);
            assert_eq!(map.tiles[map.xy_idx(x, 42)], TileType::Wall);
        }
        for y in 0..43 {
            assert_eq!(map.tiles[map.xy_idx(0, y)], TileType::Wall);
            assert_eq!(map.tiles[map.xy_idx(79, y)], TileType::Wall);
        }
        for r in map.rooms.iter() {
            let (cx, cy) = center(r);
            assert_ne!(map.tiles[map.xy_idx(cx, cy)], TileType::Wall);
        }
        let (sx, sy) = center(map.rooms.last().unwrap());
        assert_eq!(map.tiles[map.xy_idx(sx, sy)], TileType::DownStairs);
        assert_eq!(map.tiles.iter().filter(|t| **t == TileType::DownStairs).count(), 1);
    }
}

#[test]
fn generated_rooms_are_joined_in_order() {
    let map = GameMap::new_map_rooms_and_corridors(3);
    let open = |x: i32, y: i32| map.tiles[map.xy_idx(x, y)] != TileType::Wall;
    for k in 0..map.rooms.len().saturating_sub(1) {
        let (ax, ay) = center(&map.rooms[k]);
        let (bx, by) = center(&map.rooms[k + 1]);
        let h_then_v = (ax.min(bx)..=ax.max(bx)).all(|x| open(x, ay)) && (ay.min(by)..=ay.max(by)).all(|y| open(bx, y));
        let v_then_h = (ay.min(by)..=ay.max(by)).all(|y| open(ax, y)) && (ax.min(bx)..=ax.max(bx)).all(|x| open(x, by));
        assert!(h_then_v || v_then_h);
    }
}

fn solid_rock() -> GameMap {
    GameMap {
        tiles: vec![TileType::Wall; MAPCOUNT],
        rooms: Vec::new(),
        width: MAPWIDTH as i32,
        height: MAPHEIGHT as i32,
        revealed_tiles: vec![false; MAPCOUNT],
        visible_tiles: vec![false; MAPCOUNT],
        blocked: vec![false; MAPCOUNT],
        depth: 2,
        tile_content: vec![Vec::new(); MAPCOUNT],
    }
}

fn floor_cells(map: &GameMap) -> Vec<(i32, i32)> {
    let mut v = Vec::new();
    for y in 0..43 {
        for x in 0..80 {
            if map.tiles[map.xy_idx(x, y)] != TileType::Wall {
                v.push((x, y));
            }
        }
    }
    v
}

fn room_cells(x1: i32, y1: i32, x2: i32, y2: i32) -> Vec<(i32, i32)> {
    let mut v = Vec::new();
    for y in (y1 + 1)..=y2 {
        for x in (x1 + 1)..=x2 {
            v.push((x, y));
        }
    }
    v
}

#[test]
fn first_room_digs_only_its_inside() {
    let mut map = solid_rock();
    map.place_room(6, 6, 1, 1, true);
    assert_eq!(map.rooms, vec![Rect { x1: 1, y1: 1, x2: 7, y2: 7 }]);
    assert_eq!(floor_cells(&map), room_cells(1, 1, 7, 7));
    assert!(map.tiles.iter().all(|t| *t != TileType::DownStairs));
    assert_eq!(map.depth, 2);
}

fn expected_after_two(horizontal_first: bool) -> Vec<(i32, i32)> {
    let mut cells = room_cells(1, 1, 7, 7);
    cells.extend(room_cells(20, 10, 26, 16));
    if horizontal_first {
        cells.extend((4..=23).map(|x| (x, 4)));
        cells.extend((4..=13).map(|y| (23, y)));
    } else {
        cells.extend((4..=13).map(|y| (4, y)));
        cells.extend((4..=23).map(|x| (x, 13)));
    }
    cells.sort_by_key(|&(x, y)| (y, x));
    cells.dedup();
    cells
}

#[test]
fn second_room_is_joined_row_first() {
    let mut map = solid_rock();
    map.place_room(6, 6, 1, 1, false);
    map.place_room(6, 6, 20, 10, true);
    assert_eq!(map.rooms.len(), 2);
    assert_eq!(map.rooms[1], Rect { x1: 20, y1: 10, x2: 26, y2: 16 });
    assert_eq!(floor_cells(&map), expected_after_two(true));
    assert_ne!(map.tiles[map.xy_idx(23, 4)], TileType::Wall);
    assert_eq!(map.tiles[map.xy_idx(4, 13)], TileType::Wall);
}

#[test]
fn second_room_is_joined_column_first() {
    let mut map = solid_rock();
    map.place_room(6, 6, 1, 1, true);
    map.place_room(6, 6, 20, 10, false);
    assert_eq!(floor_cells(&map), expected_after_two(false));
    assert_ne!(map.tiles[map.xy_idx(4, 13)], TileType::Wall);
    assert_eq!(map.tiles[map.xy_idx(23, 4)], TileType::Wall);
}

#[test]
fn overlapping_room_is_refused() {
    let mut map = solid_rock();
    map.place_room(6, 6, 1, 1, true);
    let tiles = map.tiles.clone();
    assert!(!map.room_fits(&Rect::new(7, 7, 6, 6)));
    map.place_room(6, 6, 7, 7, true);
    assert_eq!(map.rooms.len(), 1);
    assert_eq!(map.tiles, tiles);
    assert!(map.room_fits(&Rect::new(8, 8, 6, 6)));
}

#[test]
fn generated_levels_open_only_rooms_and_corridors() {
    for depth in 1..10 {
        let map = GameMap::new_map_rooms_and_corridors(depth);
        for (x, y) in floor_cells(&map) {
            let explained = (0..map.rooms.len()).any(|k| {
                let r = &map.rooms[k];
                let inside = r.x1 < x && x <= r.x2 && r.y1 < y && y <= r.y2;
                let on_path = k > 0 && {
                    let (ax, ay) = center(&map.rooms[k - 1]);
                    let (bx, by) = center(r);
                    let in_xs = ax.min(bx) <= x && x <= ax.max(bx);
                    let in_ys = ay.min(by) <= y && y <= ay.max(by);
                    (y == ay && in_xs) || (x == bx && in_ys) || (x == ax && in_ys) || (y == by && in_xs)
                };
                inside || on_path
            });
            assert!(explained, "cell ({}, {}) is open but in no room or corridor", x, y);
        }
    }
}

#[test]
fn blocking_flags_past_the_tiles_are_kept() {
    let mut map = open_box(3, 3);
    map.blocked = vec![false; 12];
    map.blocked[10] = true;
    map.populate_blocked();
    assert_eq!(map.blocked.len(), 12);
    assert!(map.blocked[0] && !map.blocked[4] && map.blocked[10] && !map.blocked[11]);
}

#[test]
fn exits_need_only_the_blocking_flags() {
    let map = GameMap {
        tiles: vec![TileType::Floor; 25],
        rooms: Vec::new(),
        width: 5,
        height: 5,
        revealed_tiles: Vec::new(),
        visible_tiles: Vec::new(),
        blocked: vec![false; 25],
        depth: 0,
        tile_content: Vec::new(),
    };
    let exits = map.get_available_exits(12);
    assert_eq!(
        exits,
        vec![
            (11, ExitKind::Straight),
            (13, ExitKind::Straight),
            (7, ExitKind::Straight),
            (17, ExitKind::Straight),
            (6, ExitKind::Diagonal),
            (8, ExitKind::Diagonal),
            (16, ExitKind::Diagonal),
            (18, ExitKind::Diagonal),
        ]
    );
}

#[test]
fn a_short_map_is_drawn_tile_by_tile() {
    let map = GameMap {
        tiles: vec![TileType::Wall, TileType::Floor, TileType::DownStairs],
        rooms: Vec::new(),
        width: 80,
        height: 43,
        revealed_tiles: vec![true, true, false],
        visible_tiles: vec![true, false, false],
        blocked: Vec::new(),
        depth: 0,
        tile_content: Vec::new(),
    };
    let cells: Vec<(i32, i32, u16, TileColor)> =
        map.map_cells_to_draw().into_iter().map(|c| (c.x, c.y, c.glyph, c.color)).collect();
    assert_eq!(cells, vec![(0, 0, 35, TileColor::Wall), (1, 0, 46, TileColor::RememberedFloor)]);
}
