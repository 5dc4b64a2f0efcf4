use std::collections::HashMap;

use rusty_roguelike::components::{CombatStats, SufferDamage};
use rusty_roguelike::damage_system::{apply_pending_damage, find_the_dead, Combatant};
use rusty_roguelike::gamelog::GameLog;

#[test]
fn new_damage_starts_a_list() {
    let mut store: HashMap<u32, SufferDamage> = HashMap::new();
    SufferDamage::new_damage(&mut store, 4, 7);
    assert_eq!(store.len(), 1);
    assert_eq!(store[&4].amount, vec![7]);
}

#[test]
fn new_damage_appends_to_existing_hits() {
    let mut store: HashMap<u32, SufferDamage> = HashMap::new();
    SufferDamage::new_damage(&mut store, 4, 7);
    SufferDamage::new_damage(&mut store, 9, 1);
    SufferDamage::new_damage(&mut store, 4, 3);
    assert_eq!(store.len(), 2);
    assert_eq!(store[&4].amount, vec![7, 3]);
    assert_eq!(store[&9].amount, vec![1]);
}

#[test]
fn pending_damage_is_summed_off_hp() {
    let mut stats = CombatStats { max_hp: 30, hp: 30, defense: 2, power: 5 };
    apply_pending_damage(&mut stats, &SufferDamage { amount: vec![4, 5, 6] });
    assert_eq!(stats.hp, 15);
    assert_eq!((stats.max_hp, stats.defense, stats.power), (30, 2, 5));
    apply_pending_damage(&mut stats, &SufferDamage { amount: vec![] });
    assert_eq!(stats.hp, 15);
    apply_pending_damage(&mut stats, &SufferDamage { amount: vec![20, -2] });
    assert_eq!(stats.hp, -3);
}

fn combatant(entity: u32, hp: i32, is_player: bool, name: Option<&str>) -> Combatant {
    Combatant { entity, hp, is_player, name: name.map(|s| s.to_string()) }
}

#[test]
fn the_dead_are_found_and_logged() {
    let cs = vec![
        combatant(1, 0, false, Some("Goblin #1")),
        combatant(2, 5, false, Some("Orc #2")),
        combatant(3, -4, false, None),
        combatant(4, 0, true, Some("Player")),
        combatant(5, 1, false, Some("Orc #5")),
        combatant(6, -1, false, Some("Orc #6")),
    ];
    let mut log = GameLog { entries: vec!["Welcome to Rusty Roguelike".to_string()] };
    let report = find_the_dead(&cs, &mut log);
    assert_eq!(report.dead, vec![1, 3, 6]);
    assert_eq!(report.dead_players, 1);
    assert_eq!(
        log.entries,
        vec![
            "Welcome to Rusty Roguelike".to_string(),
            "Goblin #1 became tame!".to_string(),
            "Orc #6 became tame!".to_string(),
        ]
    );
}

#[test]
fn nobody_dies_with_hit_points_left() {
    let cs = vec![combatant(1, 1, false, Some("Goblin")), combatant(2, 30, true, Some("Player"))];
    let mut log = GameLog { entries: Vec::new() };
    let report = find_the_dead(&cs, &mut log);
    assert!(report.dead.is_empty());
    assert_eq!(report.dead_players, 0);
    assert!(log.entries.is_empty());
}

#[test]
fn deleting_the_dead_twice_is_deleting_them_once() {
    let cs = vec![
        combatant(1, 0, false, Some("Goblin #1")),
        combatant(2, 5, false, Some("Orc #2")),
        combatant(4, 0, true, Some("Player")),
        combatant(6, -1, false, None),
    ];
    let mut log = GameLog { entries: Vec::new() };
    let first = find_the_dead(&cs, &mut log);
    let survivors: Vec<Combatant> = cs
        .iter()
        .filter(|c| !first.dead.contains(&c.entity))
        .map(|c| combatant(c.entity, c.hp, c.is_player, c.name.as_deref()))
        .collect();
    assert_eq!(survivors.iter().map(|c| c.entity).collect::<Vec<_>>(), vec![2, 4]);
    let logged = log.entries.clone();
    let second = find_the_dead(&survivors, &mut log);
    assert!(second.dead.is_empty());
    assert_eq!(second.dead_players, first.dead_players);
    assert_eq!(log.entries, logged);
}
