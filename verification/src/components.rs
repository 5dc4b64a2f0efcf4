use vstd::prelude::*;

verus! {

/// A cell of the map or screen, by column and row.
#[derive(PartialEq, Eq, Structural, Clone, Copy, Debug)]
pub struct Point {
    pub x: i32,
    pub y: i32,
}

/// Where an entity stands.
#[derive(PartialEq, Eq, Structural, Clone, Copy, Debug)]
pub struct Position {
    pub x: i32,
    pub y: i32,
}

/// The named colours entities are drawn in.
#[derive(PartialEq, Eq, Structural, Clone, Copy, Debug)]
pub enum NamedColor {
    Green,
    Red,
    Black,
    Magenta,
    Cyan,
    Orange,
    Pink,
    Yellow,
    White,
}

/// How an entity is drawn: its glyph, its colours, and the order it is drawn in
/// (lower first).
#[derive(PartialEq, Eq, Structural, Clone, Copy, Debug)]
pub struct Renderable {
    pub glyph: u8,
    pub fg: NamedColor,
    pub bg: NamedColor,
    pub render_order: i32,
}

/// Marks the player's entity.
#[derive(PartialEq, Eq, Structural, Clone, Copy, Debug)]
pub struct Player {}

/// Marks a monster.
#[derive(PartialEq, Eq, Structural, Clone, Copy, Debug)]
pub struct Monster {}

/// What an entity can see: the cells in view, how far it sees, and whether the view
/// must be recomputed.
pub struct Viewshed {
    pub visible_tiles: Vec<Point>,
    pub range: i32,
    pub dirty: bool,
}

/// An entity's name.
pub struct Name {
    pub name: String,
}

/// Marks an entity that no other can walk through.
#[derive(PartialEq, Eq, Structural, Clone, Copy, Debug)]
pub struct BlocksTile {}

/// Hit points and fighting strength.
#[derive(PartialEq, Eq, Structural, Clone, Copy, Debug)]
pub struct CombatStats {
    pub max_hp: i32,
    pub hp: i32,
    pub defense: i32,
    pub power: i32,
}

/// Damage an entity has taken this turn and not yet applied, one entry per hit.
pub struct SufferDamage {
    pub amount: Vec<i32>,
}

/// Marks an entity that can be picked up.
#[derive(PartialEq, Eq, Structural, Clone, Copy, Debug)]
pub struct Item {}

/// A potion that heals.
#[derive(PartialEq, Eq, Structural, Clone, Copy, Debug)]
pub struct Potion {
    pub heal: i32,
}

/// Marks an item used up when used.
#[derive(PartialEq, Eq, Structural, Clone, Copy, Debug)]
pub struct Consumable {}

/// An item that heals when used.
#[derive(PartialEq, Eq, Structural, Clone, Copy, Debug)]
pub struct ProvidesHealing {
    pub heal_amount: i32,
}

/// An item used on a target up to `range` cells away.
#[derive(PartialEq, Eq, Structural, Clone, Copy, Debug)]
pub struct Ranged {
    pub range: i32,
}

/// An item that deals damage.
#[derive(PartialEq, Eq, Structural, Clone, Copy, Debug)]
pub struct InflictsDamage {
    pub damage: i32,
}

/// An item whose effect covers all cells within `radius` of the target.
#[derive(PartialEq, Eq, Structural, Clone, Copy, Debug)]
pub struct AreaOfEffect {
    pub radius: i32,
}

/// An item that confuses its target for a number of turns.
#[derive(PartialEq, Eq, Structural, Clone, Copy, Debug)]
pub struct Confusion {
    pub turns: i32,
}

/// The pending damage of `victim` after one more hit of `amount`: the hits it already
/// had, if any, followed by the new one.
pub open spec fn damage_after_hit(store: Map<u32, SufferDamage>, victim: u32, amount: i32) -> Seq<i32> {
    if store.contains_key(victim) {
        store[victim].amount@.push(amount)
    } else {
        seq![amount]
    }
}

impl SufferDamage {
    /// Records a hit of `amount` against `victim` in the pending-damage store: appended
    /// to the victim's pending hits, or starting a new list if it had none.
    pub fn new_damage(store: &mut std::collections::HashMap<u32, SufferDamage>, victim: u32, amount: i32)
        ensures
            final(store)@.dom() == old(store)@.dom().insert(victim),
            forall|k: u32| k != victim && #[trigger] old(store)@.contains_key(k) ==> final(store)@[k] == old(store)@[k],
            final(store)@[victim].amount@ == damage_after_hit(old(store)@, victim, amount),
    {
        broadcast use vstd::std_specs::hash::group_hash_axioms;
        match store.remove(&victim) {
            Some(mut suffering) => {
                suffering.amount.push(amount);
                store.insert(victim, suffering);
            },
            None => {
                let mut amounts: Vec<i32> = Vec::new();
                amounts.push(amount);
                let dmg = SufferDamage { amount: amounts };
                store.insert(victim, dmg);
            },
        }
    }
}

} // verus!
