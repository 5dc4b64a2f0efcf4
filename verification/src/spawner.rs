use vstd::prelude::*;
use crate::components::{
    AreaOfEffect, BlocksTile, CombatStats, Confusion, Consumable, InflictsDamage, Item, Monster,
    Name, NamedColor, Player, Position, Potion, Ranged, Renderable, Viewshed,
};
use crate::random_table::RandomTable;
use crate::rect::Rect;
use crate::rng::{roll_dice, to_cp437};
use crate::gui::{decimal, decimal_string};

verus! {

/// Most monsters a room can get.
pub const MAX_MONSTERS: i32 = 4;
/// Most items a room can get.
pub const MAX_ITEMS: i32 = 2;

/// The components of an entity about to be created; `None` leaves a component out.
pub struct EntityTemplate {
    pub position: Position,
    pub renderable: Renderable,
    pub name: Name,
    pub player: Option<Player>,
    pub monster: Option<Monster>,
    pub item: Option<Item>,
    pub consumable: Option<Consumable>,
    pub blocks_tile: Option<BlocksTile>,
    pub viewshed: Option<Viewshed>,
    pub combat_stats: Option<CombatStats>,
    pub potion: Option<Potion>,
    pub ranged: Option<Ranged>,
    pub inflicts_damage: Option<InflictsDamage>,
    pub area_of_effect: Option<AreaOfEffect>,
    pub confusion: Option<Confusion>,
}

/// `v` is a fresh view: nothing seen yet, `range` cells far, to be computed.
pub open spec fn fresh_view(v: Option<Viewshed>, range: i32) -> bool {
    v matches Some(vs) && vs.visible_tiles@.len() == 0 && vs.range == range && vs.dirty
}

/// `t` stands at `(x, y)`, is drawn with `glyph` in `fg` on black at `order`, and is
/// called `name`.
pub open spec fn looks(t: EntityTemplate, x: i32, y: i32, glyph: char, fg: NamedColor, order: i32, name: Seq<char>) -> bool {
    &&& t.position == Position { x, y }
    &&& t.renderable == Renderable { glyph: glyph as u8, fg, bg: NamedColor::Black, render_order: order }
    &&& t.name.name@ == name
}

/// `t` has none of the item components.
pub open spec fn no_item_parts(t: EntityTemplate) -> bool {
    &&& t.item is None
    &&& t.consumable is None
    &&& t.potion is None
    &&& t.ranged is None
    &&& t.inflicts_damage is None
    &&& t.area_of_effect is None
    &&& t.confusion is None
}

/// `t` is the player at `(x, y)`.
pub open spec fn is_player_template(t: EntityTemplate, x: i32, y: i32) -> bool {
    &&& looks(t, x, y, '@', NamedColor::Green, 0, "Player"@)
    &&& t.player is Some
    &&& t.monster is None
    &&& t.blocks_tile is None
    &&& fresh_view(t.viewshed, 8)
    &&& t.combat_stats == Some(CombatStats { max_hp: 50, hp: 50, defense: 2, power: 6 })
    &&& no_item_parts(t)
}

/// `t` is a monster at `(x, y)` drawn with `glyph` and called `name`.
pub open spec fn is_monster_template(t: EntityTemplate, x: i32, y: i32, glyph: u8, name: Seq<char>) -> bool {
    &&& t.position == Position { x, y }
    &&& t.renderable == Renderable { glyph, fg: NamedColor::Red, bg: NamedColor::Black, render_order: 1 }
    &&& t.name.name@ == name
    &&& t.player is None
    &&& t.monster is Some
    &&& t.blocks_tile is Some
    &&& fresh_view(t.viewshed, 8)
    &&& t.combat_stats == Some(CombatStats { max_hp: 15, hp: 15, defense: 1, power: 4 })
    &&& no_item_parts(t)
}

/// `t` is an orc at `(x, y)`.
pub open spec fn is_orc(t: EntityTemplate, x: i32, y: i32) -> bool {
    is_monster_template(t, x, y, 'o' as u8, "Orc"@)
}

/// `t` is a goblin at `(x, y)`.
pub open spec fn is_goblin(t: EntityTemplate, x: i32, y: i32) -> bool {
    is_monster_template(t, x, y, 'g' as u8, "Goblin"@)
}

/// `t` is an item at `(x, y)`, not a creature.
pub open spec fn item_base(t: EntityTemplate) -> bool {
    &&& t.player is None
    &&& t.monster is None
    &&& t.blocks_tile is None
    &&& t.viewshed is None
    &&& t.combat_stats is None
    &&& t.item is Some
}

/// `t` is a health potion at `(x, y)`.
pub open spec fn is_health_potion(t: EntityTemplate, x: i32, y: i32) -> bool {
    &&& looks(t, x, y, 'i', NamedColor::Magenta, 2, "Red Sugar"@)
    &&& item_base(t)
    &&& t.potion == Some(Potion { heal: 25 })
    &&& t.consumable is None
    &&& t.ranged is None
    &&& t.inflicts_damage is None
    &&& t.area_of_effect is None
    &&& t.confusion is None
}

/// `t` is a magic missile scroll at `(x, y)`.
pub open spec fn is_magic_missile_scroll(t: EntityTemplate, x: i32, y: i32) -> bool {
    &&& looks(t, x, y, '&', NamedColor::Cyan, 2, "Magic Missile Scroll"@)
    &&& item_base(t)
    &&& t.consumable is Some
    &&& t.ranged == Some(Ranged { range: 10 })
    &&& t.inflicts_damage == Some(InflictsDamage { damage: 8 })
    &&& t.potion is None
    &&& t.area_of_effect is None
    &&& t.confusion is None
}

/// `t` is a fireball scroll at `(x, y)`.
pub open spec fn is_fireball_scroll(t: EntityTemplate, x: i32, y: i32) -> bool {
    &&& looks(t, x, y, '&', NamedColor::Orange, 2, "Fireball Scroll"@)
    &&& item_base(t)
    &&& t.consumable is Some
    &&& t.ranged == Some(Ranged { range: 10 })
    &&& t.inflicts_damage == Some(InflictsDamage { damage: 20 })
    &&& t.area_of_effect == Some(AreaOfEffect { radius: 3 })
    &&& t.potion is None
    &&& t.confusion is None
}

/// `t` is a confusion scroll at `(x, y)`.
pub open spec fn is_confusion_scroll(t: EntityTemplate, x: i32, y: i32) -> bool {
    &&& looks(t, x, y, '&', NamedColor::Pink, 2, "Confusion Scroll"@)
    &&& item_base(t)
    &&& t.consumable is Some
    &&& t.ranged == Some(Ranged { range: 10 })
    &&& t.confusion == Some(Confusion { turns: 4 })
    &&& t.potion is None
    &&& t.inflicts_damage is None
    &&& t.area_of_effect is None
}

/// A view with nothing seen yet, `range` cells far, to be computed.
fn fresh_viewshed(range: i32) -> (v: Viewshed)
    ensures
        fresh_view(Some(v), range),
{
    Viewshed { visible_tiles: Vec::new(), range, dirty: true }
}

/// The glyph of a printable ASCII character.
fn ascii_glyph(c: char) -> (g: u8)
    requires
        ' ' <= c <= '~',
    ensures
        g == c as u8,
{
    to_cp437(c) as u8
}

/// The player, at `(player_x, player_y)`.
pub fn player(player_x: i32, player_y: i32) -> (t: EntityTemplate)
    ensures
        is_player_template(t, player_x, player_y),
{
    EntityTemplate {
        position: Position { x: player_x, y: player_y },
        renderable: Renderable {
            glyph: ascii_glyph('@'),
            fg: NamedColor::Green,
            bg: NamedColor::Black,
            render_order: 0,
        },
        name: Name { name: String::from_str("Player") },
        player: Some(Player {}),
        monster: None,
        item: None,
        consumable: None,
        blocks_tile: None,
        viewshed: Some(fresh_viewshed(8)),
        combat_stats: Some(CombatStats { max_hp: 50, hp: 50, defense: 2, power: 6 }),
        potion: None,
        ranged: None,
        inflicts_damage: None,
        area_of_effect: None,
        confusion: None,
    }
}

/// A monster at `(x, y)`, drawn with `glyph` and called `name`.
fn monster(x: i32, y: i32, glyph: u8, name: &str) -> (t: EntityTemplate)
    ensures
        is_monster_template(t, x, y, glyph, name@),
{
    EntityTemplate {
        position: Position { x, y },
        renderable: Renderable { glyph, fg: NamedColor::Red, bg: NamedColor::Black, render_order: 1 },
        name: Name { name: String::from_str(name) },
        player: None,
        monster: Some(Monster {}),
        item: None,
        consumable: None,
        blocks_tile: Some(BlocksTile {}),
        viewshed: Some(fresh_viewshed(8)),
        combat_stats: Some(CombatStats { max_hp: 15, hp: 15, defense: 1, power: 4 }),
        potion: None,
        ranged: None,
        inflicts_damage: None,
        area_of_effect: None,
        confusion: None,
    }
}

/// An orc at `(x, y)`.
fn orc(x: i32, y: i32) -> (t: EntityTemplate)
    ensures
        is_orc(t, x, y),
{
    monster(x, y, ascii_glyph('o'), "Orc")
}

/// A goblin at `(x, y)`.
fn goblin(x: i32, y: i32) -> (t: EntityTemplate)
    ensures
        is_goblin(t, x, y),
{
    monster(x, y, ascii_glyph('g'), "Goblin")
}

/// The monster a roll of one die with two faces gives: an orc on a 1, else a goblin.
pub fn monster_for_roll(roll: i32, x: i32, y: i32) -> (t: EntityTemplate)
    ensures
        roll == 1 ==> is_orc(t, x, y),
        roll != 1 ==> is_goblin(t, x, y),
{
    match roll {
        1 => orc(x, y),
        _ => goblin(x, y),
    }
}

/// The glyph and name of the monster that stands in the `i`-th room after the first
/// when the level is first populated: a goblin ("Goblin #i", drawn 'g') when the die
/// shows 1, else an orc ("Orc #i", drawn 'o').
pub fn numbered_monster(roll: i32, i: i32) -> (r: (u8, String))
    ensures
        roll == 1 ==> r.0 == 'g' as u8 && r.1@ == "Goblin #"@ + decimal(i as int),
        roll != 1 ==> r.0 == 'o' as u8 && r.1@ == "Orc #"@ + decimal(i as int),
{
    let (glyph, mut name) = match roll {
        1 => (ascii_glyph('g'), String::from_str("Goblin #")),
        _ => (ascii_glyph('o'), String::from_str("Orc #")),
    };
    let number = decimal_string(i);
    name.append(number.as_str());
    (glyph, name)
}

/// A random monster at `(x, y)`: an orc or a goblin, as the die decides.
pub fn random_monster(rng: &mut rltk::RandomNumberGenerator, x: i32, y: i32) -> (t: EntityTemplate)
    ensures
        is_orc(t, x, y) || is_goblin(t, x, y),
{
    let roll = roll_dice(rng, 1, 2);
    monster_for_roll(roll, x, y)
}

/// An item at `(x, y)` drawn with `glyph` in `fg` and called `name`, with no special
/// parts yet.
fn item_base_at(x: i32, y: i32, glyph: u8, fg: NamedColor, name: &str) -> (t: EntityTemplate)
    ensures
        t.position == (Position { x, y }),
        t.renderable == (Renderable { glyph, fg, bg: NamedColor::Black, render_order: 2 }),
        t.name.name@ == name@,
        item_base(t),
        t.consumable is None,
        t.potion is None,
        t.ranged is None,
        t.inflicts_damage is None,
        t.area_of_effect is None,
        t.confusion is None,
{
    EntityTemplate {
        position: Position { x, y },
        renderable: Renderable { glyph, fg, bg: NamedColor::Black, render_order: 2 },
        name: Name { name: String::from_str(name) },
        player: None,
        monster: None,
        item: Some(Item {}),
        consumable: None,
        blocks_tile: None,
        viewshed: None,
        combat_stats: None,
        potion: None,
        ranged: None,
        inflicts_damage: None,
        area_of_effect: None,
        confusion: None,
    }
}

/// A health potion at `(x, y)`.
fn health_potion(x: i32, y: i32) -> (t: EntityTemplate)
    ensures
        is_health_potion(t, x, y),
{
    let mut t = item_base_at(x, y, ascii_glyph('i'), NamedColor::Magenta, "Red Sugar");
    t.potion = Some(Potion { heal: 25 });
    t
}

/// A magic missile scroll at `(x, y)`.
fn magic_missile_scroll(x: i32, y: i32) -> (t: EntityTemplate)
    ensures
        is_magic_missile_scroll(t, x, y),
{
    let mut t = item_base_at(x, y, ascii_glyph('&'), NamedColor::Cyan, "Magic Missile Scroll");
    t.consumable = Some(Consumable {});
    t.ranged = Some(Ranged { range: 10 });
    t.inflicts_damage = Some(InflictsDamage { damage: 8 });
    t
}

/// A fireball scroll at `(x, y)`.
fn fireball_scroll(x: i32, y: i32) -> (t: EntityTemplate)
    ensures
        is_fireball_scroll(t, x, y),
{
    let mut t = item_base_at(x, y, ascii_glyph('&'), NamedColor::Orange, "Fireball Scroll");
    t.consumable = Some(Consumable {});
    t.ranged = Some(Ranged { range: 10 });
    t.inflicts_damage = Some(InflictsDamage { damage: 20 });
    t.area_of_effect = Some(AreaOfEffect { radius: 3 });
    t
}

/// A confusion scroll at `(x, y)`.
fn confusion_scroll(x: i32, y: i32) -> (t: EntityTemplate)
    ensures
        is_confusion_scroll(t, x, y),
{
    let mut t = item_base_at(x, y, ascii_glyph('&'), NamedColor::Pink, "Confusion Scroll");
    t.consumable = Some(Consumable {});
    t.ranged = Some(Ranged { range: 10 });
    t.confusion = Some(Confusion { turns: 4 });
    t
}

/// The item a roll of one die with four faces gives: a health potion on a 1, a
/// fireball scroll on a 2, a confusion scroll on a 3, else a magic missile scroll.
pub fn item_for_roll(roll: i32, x: i32, y: i32) -> (t: EntityTemplate)
    ensures
        roll == 1 ==> is_health_potion(t, x, y),
        roll == 2 ==> is_fireball_scroll(t, x, y),
        roll == 3 ==> is_confusion_scroll(t, x, y),
        roll != 1 && roll != 2 && roll != 3 ==> is_magic_missile_scroll(t, x, y),
{
    match roll {
        1 => health_potion(x, y),
        2 => fireball_scroll(x, y),
        3 => confusion_scroll(x, y),
        _ => magic_missile_scroll(x, y),
    }
}

/// A random item at `(x, y)`, as the die decides.
pub fn random_item(rng: &mut rltk::RandomNumberGenerator, x: i32, y: i32) -> (t: EntityTemplate)
    ensures
        is_health_potion(t, x, y) || is_fireball_scroll(t, x, y) || is_confusion_scroll(t, x, y)
            || is_magic_missile_scroll(t, x, y),
{
    let roll = roll_dice(rng, 1, 4);
    item_for_roll(roll, x, y)
}

/// The outcomes of `t` as names and weights, in order, and its total weight.
pub open spec fn table_view(t: RandomTable) -> (Seq<(Seq<char>, i32)>, int) {
    (t.entries@.map_values(|e: crate::random_table::RandomEntry| (e.name@, e.weight)), t.total_weight as int)
}

/// What a room can hold, with the weight of each.
fn room_table() -> (t: RandomTable)
    ensures
        t.wf(),
        table_view(t) == (seq![
            ("Goblin"@, 10i32),
            ("Orc"@, 1i32),
            ("Health Potion"@, 7i32),
            ("Fireball Scroll"@, 2i32),
            ("Confusion Scroll"@, 2i32),
            ("Magic Missile Scroll"@, 4i32),
        ], 26int),
{
    let t = RandomTable::new().add("Goblin", 10).add("Orc", 1).add("Health Potion", 7).add(
        "Fireball Scroll",
        2,
    ).add("Confusion Scroll", 2).add("Magic Missile Scroll", 4);
    assert(t.entries@.len() == 6);
    assert(table_view(t).0 =~= seq![
        ("Goblin"@, 10i32),
        ("Orc"@, 1i32),
        ("Health Potion"@, 7i32),
        ("Fireball Scroll"@, 2i32),
        ("Confusion Scroll"@, 2i32),
        ("Magic Missile Scroll"@, 4i32),
    ]);
    t
}

/// How many things of one kind a room gets for die roll `roll`: three less than the
/// roll. Zero or less means none.
pub fn count_for_roll(roll: i32) -> (n: i32)
    requires
        i32::MIN + 3 <= roll,
    ensures
        n == roll - 3,
{
    roll - 3
}

/// How many things of one kind a room gets: one die with `max + 2` faces, less three
/// (see `count_for_roll`). Zero or less means none. Which face comes up is chance, so
/// only the range is stated here.
pub fn roll_spawn_count(rng: &mut rltk::RandomNumberGenerator, max: i32) -> (n: i32)
    requires
        -1 <= max < i32::MAX - 2,
    ensures
        -2 <= n <= max - 1,
{
    let roll = roll_dice(rng, 1, max + 2);
    count_for_roll(roll)
}

/// The absolute value of `a`.
pub open spec fn abs_i(a: int) -> int {
    if a < 0 { -a } else { a }
}

/// The map index of a cell of `room`: one die per axis, sized to the room's width and
/// height, counted from its top-left corner.
pub open spec fn spawn_point_of(room: Rect, rx: int, ry: int) -> int {
    (room.y1 + ry) * 80 + (room.x1 + rx)
}

/// Room `room` can have a spawn point drawn in it: both its sides are nonzero, and
/// every cell the dice can pick has a map index.
pub open spec fn spawnable(room: Rect) -> bool {
    &&& i32::MIN < room.x2 - room.x1 <= i32::MAX
    &&& i32::MIN < room.y2 - room.y1 <= i32::MAX
    &&& room.x2 != room.x1
    &&& room.y2 != room.y1
    &&& abs_i(room.x2 - room.x1) < i32::MAX
    &&& abs_i(room.y2 - room.y1) < i32::MAX
    &&& 0 <= room.x1 + 1
    &&& 0 <= room.y1 + 1
    &&& room.x1 + abs_i(room.x2 - room.x1) <= i32::MAX
    &&& room.y1 + abs_i(room.y2 - room.y1) <= i32::MAX
    &&& spawn_point_of(room, abs_i(room.x2 - room.x1), abs_i(room.y2 - room.y1)) <= usize::MAX
}

/// Draws a cell of `room` for something to spawn on, as its map index (80 columns a
/// row). Which cell depends on the dice; it is always one the dice can reach.
pub fn roll_spawn_point(rng: &mut rltk::RandomNumberGenerator, room: &Rect) -> (idx: usize)
    requires
        spawnable(*room),
    ensures
        exists|rx: int, ry: int|
            1 <= rx <= abs_i(room.x2 - room.x1) && 1 <= ry <= abs_i(room.y2 - room.y1)
                && idx == spawn_point_of(*room, rx, ry),
{
    let dx = room.x2 - room.x1;
    let w = if dx < 0 { -dx } else { dx };
    let dy = room.y2 - room.y1;
    let h = if dy < 0 { -dy } else { dy };
    let rx = roll_dice(rng, 1, w);
    let ry = roll_dice(rng, 1, h);
    let x = room.x1 + rx;
    let y = room.y1 + ry;
    assert(spawn_point_of(*room, rx as int, ry as int) <= spawn_point_of(*room, w as int, h as int));
    let idx = (y as usize * 80) + x as usize;
    assert(idx == spawn_point_of(*room, rx as int, ry as int));
    idx
}

/// Whether `s` holds no index twice.
pub open spec fn distinct(s: Seq<usize>) -> bool {
    forall|i: int, j: int| 0 <= i < j < s.len() ==> s[i] != s[j]
}

/// Adds `idx` to the chosen spawn points unless it is already there; says whether it
/// was added. Chosen points never repeat.
pub fn add_spawn_point(points: &mut Vec<usize>, idx: usize) -> (added: bool)
    requires
        distinct(old(points)@),
    ensures
        added == !old(points)@.contains(idx),
        added ==> final(points)@ == old(points)@.push(idx),
        !added ==> final(points)@ == old(points)@,
        distinct(final(points)@),
{
    let mut i: usize = 0;
    while i < points.len()
        invariant
            i <= points@.len(),
            points@ == old(points)@,
            distinct(old(points)@),
            forall|k: int| 0 <= k < i ==> points@[k] != idx,
        decreases points@.len() - i,
    {
        if points[i] == idx {
            return false;
        }
        i = i + 1;
    }
    points.push(idx);
    true
}

/// The column and row of map index `idx` (80 columns a row), as `i32` (a row past
/// `i32::MAX` wraps, as an `as` conversion does).
pub fn spawn_point_position(idx: usize) -> (p: (i32, i32))
    ensures
        p.0 == idx % 80,
        p.1 == (idx / 80) as i32,
{
    let x = idx % 80;
    let y = idx / 80;
    (x as i32, #[verifier::truncate] (y as i32))
}

/// Law: a cell's spawn-point index gives back the cell's column and row.
pub proof fn lemma_spawn_point_round_trip(x: int, y: int)
    requires
        0 <= x < 80,
        0 <= y,
    ensures
        (y * 80 + x) % 80 == x,
        (y * 80 + x) / 80 == y,
{
    vstd::arithmetic::div_mod::lemma_fundamental_div_mod_converse(y * 80 + x, 80, y, x);
}

} // verus!
