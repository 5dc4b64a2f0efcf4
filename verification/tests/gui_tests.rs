use rusty_roguelike::components::{CombatStats, Name, Position};
use rusty_roguelike::gamelog::GameLog;
use rusty_roguelike::gui::{decimal_string, entities_in_view, health_text, log_lines, tooltip_texts};
use rusty_roguelike::map::{GameMap, TileType};
use rusty_roguelike::random_table::RandomTable;

#[test]
fn health_line() {
    let s = health_text(&CombatStats { max_hp: 30, hp: 27, defense: 2, power: 5 });
    assert_eq!(s, " HP: 27 / 30");
    let s = health_text(&CombatStats { max_hp: 100, hp: -5, defense: 2, power: 5 });
    assert_eq!(s, " HP: -5 / 100");
}

#[test]
fn log_shows_newest_four() {
    let log = GameLog { entries: (0..6).map(|i| format!("m{}", i)).collect() };
    let lines = log_lines(&log);
    let got: Vec<(i32, i32, String)> = lines.into_iter().map(|t| (t.x, t.y, t.text)).collect();
    assert_eq!(
        got,
        vec![
            (2, 45, "m5".to_string()),
            (2, 46, "m4".to_string()),
            (2, 47, "m3".to_string()),
            (2, 48, "m2".to_string()),
        ]
    );
    let short = GameLog { entries: vec!["only".to_string()] };
    assert_eq!(log_lines(&short).len(), 1);
}

fn named(name: &str, x: i32, y: i32) -> (Name, Position) {
    (Name { name: name.to_string() }, Position { x, y })
}

#[test]
fn tooltip_left_of_the_mouse() {
    let ents = vec![named("Orc", 50, 10), named("Goblin", 51, 10), named("Potion", 50, 10)];
    let texts = tooltip_texts(80, 43, 50, 10, &ents);
    let got: Vec<(i32, i32, String)> = texts.into_iter().map(|t| (t.x, t.y, t.text)).collect();
    // width = 6 + 3 = 9; names at x = 41; blanks leftwards from x = 48.
    let mut want = vec![(41, 10, "Orc".to_string())];
    for i in 0..5 {
        want.push((48 - i, 10, " ".to_string()));
    }
    want.push((41, 11, "Potion".to_string()));
    for i in 0..2 {
        want.push((48 - i, 11, " ".to_string()));
    }
    want.push((48, 10, "->".to_string()));
    assert_eq!(got, want);
}

#[test]
fn tooltip_right_of_the_mouse() {
    let ents = vec![named("Rat", 5, 3)];
    let texts = tooltip_texts(80, 43, 5, 3, &ents);
    let got: Vec<(i32, i32, String)> = texts.into_iter().map(|t| (t.x, t.y, t.text)).collect();
    assert_eq!(
        got,
        vec![
            (9, 3, "Rat".to_string()),
            (7, 3, " ".to_string()),
            (8, 3, " ".to_string()),
            (6, 3, "<-".to_string()),
        ]
    );
}

#[test]
fn no_tooltip_off_the_map_or_over_nothing() {
    let ents = vec![named("Orc", 85, 10)];
    assert!(tooltip_texts(80, 43, 85, 10, &ents).is_empty());
    assert!(tooltip_texts(80, 43, 20, 43, &ents).is_empty());
    assert!(tooltip_texts(80, 43, 20, 10, &ents).is_empty());
}

#[test]
fn random_table_sums_weights() {
    let t = RandomTable::new().add("a", 3).add("b", 0).add("c", 4).add("d", -2);
    assert_eq!(t.total_weight, 7);
    let names: Vec<&str> = t.entries.iter().map(|e| e.name.as_str()).collect();
    assert_eq!(names, vec!["a", "c"]);
}

#[test]
fn no_tooltip_for_a_mouse_far_off_the_map() {
    let long = "x".repeat(40);
    let ents = vec![named(&long, i32::MAX, i32::MAX), named("Orc", i32::MAX, i32::MAX)];
    assert!(tooltip_texts(80, 43, i32::MAX, i32::MAX, &ents).is_empty());
}

#[test]
fn numbers_in_decimal() {
    assert_eq!(decimal_string(0), "0");
    assert_eq!(decimal_string(7), "7");
    assert_eq!(decimal_string(1203), "1203");
    assert_eq!(decimal_string(-45), "-45");
    assert_eq!(decimal_string(i32::MAX), "2147483647");
    assert_eq!(decimal_string(i32::MIN), "-2147483648");
}

#[test]
fn only_entities_in_view_are_drawn() {
    let mut visible = vec![false; 12];
    visible[5] = true;
    visible[11] = true;
    let map = GameMap {
        tiles: vec![TileType::Floor; 12],
        rooms: Vec::new(),
        width: 4,
        height: 3,
        revealed_tiles: vec![false; 12],
        visible_tiles: visible,
        blocked: vec![false; 12],
        depth: 0,
        tile_content: vec![Vec::new(); 12],
    };
    let ps = vec![
        Position { x: 1, y: 1 },
        Position { x: 0, y: 0 },
        Position { x: 3, y: 2 },
        Position { x: 1, y: 1 },
    ];
    assert_eq!(entities_in_view(&map, &ps), vec![0, 2, 3]);
}
