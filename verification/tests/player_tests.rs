use rusty_roguelike::components::{Point, Position, Viewshed};
use rusty_roguelike::map::{GameMap, TileType};
use rusty_roguelike::player::{move_delta, player_input, try_move_player, Key, MoveOutcome};
use rusty_roguelike::state::{tick_step, RunState, TickStep};

fn arena() -> GameMap {
    let (w, h) = (6, 5);
    let n = (w * h) as usize;
    let mut tiles = Vec::new();
    for y in 0..h {
        for x in 0..w {
            tiles.push(if x == 0 || y == 0 || x == w - 1 || y == h - 1 { TileType::Wall } else { TileType::Floor });
        }
    }
    let mut map = GameMap {
        tiles,
        rooms: Vec::new(),
        width: w,
        height: h,
        revealed_tiles: vec![false; n],
        visible_tiles: vec![false; n],
        blocked: vec![false; n],
        depth: 1,
        tile_content: vec![Vec::new(); n],
    };
    map.populate_blocked();
    map
}

fn view() -> Viewshed {
    Viewshed { visible_tiles: vec![Point { x: 1, y: 1 }], range: 8, dirty: false }
}

#[test]
fn keys_map_to_steps() {
    assert_eq!(move_delta(Key::A), Some((-1, 0)));
    assert_eq!(move_delta(Key::D), Some((1, 0)));
    assert_eq!(move_delta(Key::W), Some((0, -1)));
    assert_eq!(move_delta(Key::S), Some((0, 1)));
    assert_eq!(move_delta(Key::E), Some((1, -1)));
    assert_eq!(move_delta(Key::Q), Some((-1, -1)));
    assert_eq!(move_delta(Key::C), Some((1, 1)));
    assert_eq!(move_delta(Key::X), Some((-1, 1)));
    assert_eq!(move_delta(Key::Other), None);
}

#[test]
fn player_moves_onto_free_floor() {
    let map = arena();
    let mut pos = Position { x: 2, y: 2 };
    let mut vs = view();
    let outcome = try_move_player(1, 1, &mut pos, &mut vs, &map, &vec![]);
    assert_eq!(outcome, MoveOutcome::Moved);
    assert_eq!(pos, Position { x: 3, y: 3 });
    assert!(vs.dirty);
    assert_eq!(vs.visible_tiles, vec![Point { x: 1, y: 1 }]);
}

#[test]
fn player_is_stopped_by_walls() {
    let map = arena();
    let mut pos = Position { x: 1, y: 1 };
    let mut vs = view();
    let outcome = try_move_player(-1, 0, &mut pos, &mut vs, &map, &vec![]);
    assert_eq!(outcome, MoveOutcome::Blocked);
    assert_eq!(pos, Position { x: 1, y: 1 });
    assert!(!vs.dirty);
}

#[test]
fn player_attacks_the_first_fighter_in_the_way() {
    let mut map = arena();
    let dest = map.xy_idx(3, 2);
    map.tile_content[dest] = vec![10, 11, 12];
    let mut pos = Position { x: 2, y: 2 };
    let mut vs = view();
    let outcome = try_move_player(1, 0, &mut pos, &mut vs, &map, &vec![12, 11]);
    assert_eq!(outcome, MoveOutcome::Attacked(11));
    assert_eq!(pos, Position { x: 2, y: 2 });
    assert!(!vs.dirty);
}

#[test]
fn non_fighters_do_not_stop_the_player() {
    let mut map = arena();
    let dest = map.xy_idx(3, 2);
    map.tile_content[dest] = vec![10];
    let mut pos = Position { x: 2, y: 2 };
    let mut vs = view();
    let outcome = try_move_player(1, 0, &mut pos, &mut vs, &map, &vec![5]);
    assert_eq!(outcome, MoveOutcome::Moved);
    assert_eq!(pos, Position { x: 3, y: 2 });
}

#[test]
fn positions_are_held_to_the_screen() {
    // A wide open map: the destination column 80 is free, but the player is held to 79.
    let n = 90 * 3;
    let map = GameMap {
        tiles: vec![TileType::Floor; n],
        rooms: Vec::new(),
        width: 90,
        height: 3,
        revealed_tiles: vec![false; n],
        visible_tiles: vec![false; n],
        blocked: vec![false; n],
        depth: 1,
        tile_content: vec![Vec::new(); n],
    };
    let mut pos = Position { x: 79, y: 1 };
    let mut vs = view();
    assert_eq!(try_move_player(1, 0, &mut pos, &mut vs, &map, &vec![]), MoveOutcome::Moved);
    assert_eq!(pos, Position { x: 79, y: 1 });
}

#[test]
fn input_starts_the_player_turn_only_on_movement() {
    let map = arena();
    let mut pos = Position { x: 2, y: 2 };
    let mut vs = view();
    assert_eq!(player_input(None, &mut pos, &mut vs, &map, &vec![]), (RunState::AwaitingInput, None));
    assert_eq!(player_input(Some(Key::Other), &mut pos, &mut vs, &map, &vec![]), (RunState::AwaitingInput, None));
    assert_eq!(pos, Position { x: 2, y: 2 });
    assert_eq!(
        player_input(Some(Key::S), &mut pos, &mut vs, &map, &vec![]),
        (RunState::PlayerTurn, Some(MoveOutcome::Moved))
    );
    assert_eq!(pos, Position { x: 2, y: 3 });
    // Bumping a wall still uses the turn.
    assert_eq!(
        player_input(Some(Key::S), &mut pos, &mut vs, &map, &vec![]),
        (RunState::PlayerTurn, Some(MoveOutcome::Blocked))
    );
    assert_eq!(pos, Position { x: 2, y: 3 });
}

#[test]
fn the_turn_cycle() {
    assert_eq!(tick_step(RunState::PreRun), TickStep::RunSystems { next: RunState::AwaitingInput });
    assert_eq!(tick_step(RunState::AwaitingInput), TickStep::ReadInput);
    assert_eq!(tick_step(RunState::PlayerTurn), TickStep::RunSystems { next: RunState::MonsterTurn });
    assert_eq!(tick_step(RunState::MonsterTurn), TickStep::RunSystems { next: RunState::AwaitingInput });
}

#[test]
fn a_map_without_tiles_can_still_be_walked() {
    let map = GameMap {
        tiles: Vec::new(),
        rooms: Vec::new(),
        width: 3,
        height: 3,
        revealed_tiles: Vec::new(),
        visible_tiles: Vec::new(),
        blocked: vec![false; 9],
        depth: 0,
        tile_content: vec![Vec::new(); 9],
    };
    let mut pos = Position { x: 1, y: 1 };
    let mut vs = Viewshed { visible_tiles: Vec::new(), range: 8, dirty: false };
    assert_eq!(try_move_player(1, 0, &mut pos, &mut vs, &map, &vec![]), MoveOutcome::Moved);
    assert_eq!(pos, Position { x: 2, y: 1 });
    assert!(vs.dirty);
}
