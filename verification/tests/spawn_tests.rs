use rusty_roguelike::components::{CombatStats, NamedColor, Position};
use rusty_roguelike::rect::Rect;
use rusty_roguelike::spawner::{
    add_spawn_point, count_for_roll, item_for_roll, numbered_monster, monster_for_roll, player, random_item, random_monster,
    roll_spawn_count, roll_spawn_point, spawn_point_position, MAX_ITEMS, MAX_MONSTERS,
};

#[test]
fn the_player_template() {
    let p = player(12, 7);
    assert_eq!(p.position, Position { x: 12, y: 7 });
    assert_eq!(p.renderable.glyph, b'@');
    assert_eq!(p.renderable.fg, NamedColor::Green);
    assert_eq!(p.renderable.bg, NamedColor::Black);
    assert_eq!(p.renderable.render_order, 0);
    assert_eq!(p.name.name, "Player");
    assert!(p.player.is_some() && p.monster.is_none() && p.blocks_tile.is_none());
    let vs = p.viewshed.unwrap();
    assert!(vs.visible_tiles.is_empty() && vs.range == 8 && vs.dirty);
    assert_eq!(p.combat_stats, Some(CombatStats { max_hp: 50, hp: 50, defense: 2, power: 6 }));
    assert!(p.item.is_none() && p.potion.is_none());
}

#[test]
fn monsters_by_roll() {
    let orc = monster_for_roll(1, 3, 4);
    assert_eq!(orc.name.name, "Orc");
    assert_eq!(orc.renderable.glyph, b'o');
    assert_eq!(orc.renderable.fg, NamedColor::Red);
    assert_eq!(orc.renderable.render_order, 1);
    assert_eq!(orc.combat_stats, Some(CombatStats { max_hp: 15, hp: 15, defense: 1, power: 4 }));
    assert!(orc.monster.is_some() && orc.blocks_tile.is_some());
    let goblin = monster_for_roll(2, 3, 4);
    assert_eq!(goblin.name.name, "Goblin");
    assert_eq!(goblin.renderable.glyph, b'g');
    assert_eq!(goblin.position, Position { x: 3, y: 4 });
}

#[test]
fn items_by_roll() {
    let potion = item_for_roll(1, 5, 6);
    assert_eq!(potion.name.name, "Red Sugar");
    assert_eq!(potion.renderable.glyph, b'i');
    assert_eq!(potion.renderable.fg, NamedColor::Magenta);
    assert_eq!(potion.potion.unwrap().heal, 25);
    assert!(potion.consumable.is_none());
    let fireball = item_for_roll(2, 5, 6);
    assert_eq!(fireball.name.name, "Fireball Scroll");
    assert_eq!(fireball.renderable.glyph, b'&');
    assert_eq!(fireball.inflicts_damage.unwrap().damage, 20);
    assert_eq!(fireball.area_of_effect.unwrap().radius, 3);
    assert_eq!(fireball.ranged.unwrap().range, 10);
    let confusion = item_for_roll(3, 5, 6);
    assert_eq!(confusion.name.name, "Confusion Scroll");
    assert_eq!(confusion.confusion.unwrap().turns, 4);
    assert_eq!(confusion.renderable.fg, NamedColor::Pink);
    let missile = item_for_roll(4, 5, 6);
    assert_eq!(missile.name.name, "Magic Missile Scroll");
    assert_eq!(missile.inflicts_damage.unwrap().damage, 8);
    assert_eq!(missile.renderable.fg, NamedColor::Cyan);
    assert!(missile.item.is_some() && missile.consumable.is_some());
    assert!(missile.viewshed.is_none() && missile.combat_stats.is_none());
}

#[test]
fn random_spawns_are_one_of_the_kinds() {
    let mut rng = rltk::RandomNumberGenerator::seeded(7);
    for _ in 0..50 {
        let m = random_monster(&mut rng, 1, 1);
        assert!(m.name.name == "Orc" || m.name.name == "Goblin");
        let i = random_item(&mut rng, 1, 1);
        assert!(["Red Sugar", "Fireball Scroll", "Confusion Scroll", "Magic Missile Scroll"].contains(&i.name.name.as_str()));
    }
}

#[test]
fn spawn_counts_and_points_stay_in_range() {
    let mut rng = rltk::RandomNumberGenerator::seeded(11);
    let room = Rect::new(10, 5, 6, 7);
    for _ in 0..200 {
        let n = roll_spawn_count(&mut rng, MAX_MONSTERS);
        assert!((-2..=3).contains(&n));
        let n = roll_spawn_count(&mut rng, MAX_ITEMS);
        assert!((-2..=1).contains(&n));
        let idx = roll_spawn_point(&mut rng, &room);
        let (x, y) = spawn_point_position(idx);
        assert!(11 <= x && x <= 16 && 6 <= y && y <= 12);
        assert_eq!(idx, (y * 80 + x) as usize);
    }
}

#[test]
fn spawn_points_never_repeat() {
    let mut points = Vec::new();
    assert!(add_spawn_point(&mut points, 85));
    assert!(add_spawn_point(&mut points, 170));
    assert!(!add_spawn_point(&mut points, 85));
    assert_eq!(points, vec![85, 170]);
    assert_eq!(spawn_point_position(170), (10, 2));
}

#[test]
fn spawn_count_is_the_roll_less_three() {
    assert_eq!(count_for_roll(1), -2);
    assert_eq!(count_for_roll(3), 0);
    assert_eq!(count_for_roll(6), 3);
}

#[test]
fn first_monsters_are_numbered_by_room() {
    assert_eq!(numbered_monster(1, 0), (b'g', "Goblin #0".to_string()));
    assert_eq!(numbered_monster(2, 12), (b'o', "Orc #12".to_string()));
}
