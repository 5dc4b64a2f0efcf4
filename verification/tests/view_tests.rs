use rusty_roguelike::components::{Point, Viewshed};
use rusty_roguelike::map::{GameMap, TileType};
use rusty_roguelike::visibility_system::update_viewshed;

fn blank(w: i32, h: i32) -> GameMap {
    let n = (w * h) as usize;
    GameMap {
        tiles: vec![TileType::Floor; n],
        rooms: Vec::new(),
        width: w,
        height: h,
        revealed_tiles: vec![false; n],
        visible_tiles: vec![false; n],
        blocked: vec![false; n],
        depth: 1,
        tile_content: vec![Vec::new(); n],
    }
}

fn fov() -> Vec<Point> {
    vec![
        Point { x: 0, y: 1 },
        Point { x: 1, y: 1 },
        Point { x: 2, y: 2 },
        Point { x: 3, y: 1 },
        Point { x: 2, y: 3 },
        Point { x: 2, y: 1 },
    ]
}

#[test]
fn view_keeps_only_cells_inside_the_border() {
    let mut map = blank(4, 4);
    let mut vs = Viewshed { visible_tiles: vec![Point { x: 9, y: 9 }], range: 8, dirty: true };
    update_viewshed(&mut vs, fov(), &mut map, false);
    assert_eq!(vs.visible_tiles, vec![Point { x: 1, y: 1 }, Point { x: 2, y: 2 }, Point { x: 2, y: 1 }]);
    assert!(vs.dirty);
    assert_eq!(vs.range, 8);
    assert!(map.revealed_tiles.iter().all(|b| !b));
}

#[test]
fn the_player_reveals_what_it_sees() {
    let mut map = blank(4, 4);
    map.revealed_tiles[15] = true;
    let mut vs = Viewshed { visible_tiles: Vec::new(), range: 8, dirty: true };
    update_viewshed(&mut vs, fov(), &mut map, true);
    let revealed: Vec<usize> = (0..16).filter(|i| map.revealed_tiles[*i]).collect();
    assert_eq!(revealed, vec![5, 6, 10, 15]);
}
