use vstd::prelude::*;
use crate::components::{Position, Viewshed};
use crate::map::GameMap;
use crate::state::RunState;

verus! {

/// The keys the game reads.
#[derive(PartialEq, Eq, Structural, Clone, Copy, Debug)]
pub enum Key {
    A,
    D,
    W,
    S,
    E,
    Q,
    C,
    X,
    Other,
}

/// The step a key moves the player by, if it is a movement key: A, D, W, S move left,
/// right, up and down; Q, E, X, C move diagonally up-left, up-right, down-left and
/// down-right.
pub open spec fn key_delta(key: Key) -> Option<(i32, i32)> {
    match key {
        Key::A => Some((-1i32, 0i32)),
        Key::D => Some((1i32, 0i32)),
        Key::W => Some((0i32, -1i32)),
        Key::S => Some((0i32, 1i32)),
        Key::E => Some((1i32, -1i32)),
        Key::Q => Some((-1i32, -1i32)),
        Key::C => Some((1i32, 1i32)),
        Key::X => Some((-1i32, 1i32)),
        Key::Other => None,
    }
}

/// The step a key moves the player by, if it is a movement key.
pub fn move_delta(key: Key) -> (d: Option<(i32, i32)>)
    ensures
        d == key_delta(key),
{
    match key {
        Key::A => Some((-1, 0)),
        Key::D => Some((1, 0)),
        Key::W => Some((0, -1)),
        Key::S => Some((0, 1)),
        Key::E => Some((1, -1)),
        Key::Q => Some((-1, -1)),
        Key::C => Some((1, 1)),
        Key::X => Some((-1, 1)),
        Key::Other => None,
    }
}

/// What a movement attempt did.
#[derive(PartialEq, Eq, Structural, Clone, Copy, Debug)]
pub enum MoveOutcome {
    /// The destination holds an entity that can fight, which the player attacks; the
    /// player does not move.
    Attacked(u32),
    /// The player moved.
    Moved,
    /// The destination is blocked; nothing changed.
    Blocked,
}

/// The first id in `content` that is also in `fighters`.
pub open spec fn first_fighter(content: Seq<u32>, fighters: Seq<u32>) -> Option<u32>
    decreases content.len(),
{
    if content.len() == 0 {
        None
    } else if fighters.contains(content[0]) {
        Some(content[0])
    } else {
        first_fighter(content.drop_first(), fighters)
    }
}

/// `v` held between `lo` and `hi`.
pub open spec fn clamp(v: int, lo: int, hi: int) -> int {
    if v < lo { lo } else if v > hi { hi } else { v }
}

/// The index that the step `(dx, dy)` from `pos` reaches in the map's per-cell
/// vectors: the destination's coordinates and the map's width converted to `usize` (a
/// negative value wraps, as an `as` conversion does), row times width plus column.
pub open spec fn dest_index(map: GameMap, pos: Position, dx: i32, dy: i32) -> int {
    ((pos.y + dy) as usize) * (map.width as usize) + ((pos.x + dx) as usize)
}

/// The step `(dx, dy)` from `pos` can be taken without overflow and reaches a cell
/// that the map's contents list holds, and, unless an entity that can fight stands
/// there, that the map's blocking flags hold too.
pub open spec fn step_in_map(map: GameMap, pos: Position, dx: i32, dy: i32, fighters: Seq<u32>) -> bool {
    let idx = dest_index(map, pos, dx, dy);
    &&& i32::MIN <= pos.x + dx <= i32::MAX
    &&& i32::MIN <= pos.y + dy <= i32::MAX
    &&& idx <= usize::MAX
    &&& idx < map.tile_content@.len()
    &&& first_fighter(map.tile_content@[idx]@, fighters) is None ==> idx < map.blocked@.len()
}

/// Whether `fighters` holds `id`.
fn holds(fighters: &Vec<u32>, id: u32) -> (b: bool)
    ensures
        b == fighters@.contains(id),
{
    let mut i: usize = 0;
    while i < fighters.len()
        invariant
            i <= fighters@.len(),
            forall|k: int| 0 <= k < i ==> fighters@[k] != id,
        decreases fighters@.len() - i,
    {
        if fighters[i] == id {
            return true;
        }
        i = i + 1;
    }
    false
}

/// The first entity in `content` that can fight.
fn find_fighter(content: &Vec<u32>, fighters: &Vec<u32>) -> (f: Option<u32>)
    ensures
        f == first_fighter(content@, fighters@),
{
    let mut i: usize = 0;
    assert(content@.skip(0) =~= content@);
    while i < content.len()
        invariant
            i <= content@.len(),
            first_fighter(content@, fighters@) == first_fighter(content@.skip(i as int), fighters@),
        decreases content@.len() - i,
    {
        let ghost rest = content@.skip(i as int);
        assert(rest[0] == content@[i as int]);
        assert(rest.drop_first() =~= content@.skip(i + 1));
        if holds(fighters, content[i]) {
            return Some(content[i]);
        }
        i = i + 1;
    }
    assert(content@.skip(i as int).len() == 0);
    None
}

/// What a step of `(dx, dy)` from `pos` does: attack the first entity at the
/// destination that can fight, else move if the destination is not blocked, else
/// nothing.
pub open spec fn move_outcome(map: GameMap, pos: Position, dx: i32, dy: i32, fighters: Seq<u32>) -> MoveOutcome {
    let idx = dest_index(map, pos, dx, dy);
    match first_fighter(map.tile_content@[idx]@, fighters) {
        Some(target) => MoveOutcome::Attacked(target),
        None => if !map.blocked@[idx] { MoveOutcome::Moved } else { MoveOutcome::Blocked },
    }
}

/// Where the player stands after the step: at the destination, held to columns 0 to
/// 79 and rows 0 to 49, if it moved; else where it was.
pub open spec fn pos_after(map: GameMap, pos: Position, dx: i32, dy: i32, fighters: Seq<u32>) -> Position {
    if move_outcome(map, pos, dx, dy, fighters) == MoveOutcome::Moved {
        Position { x: clamp(pos.x + dx, 0, 79) as i32, y: clamp(pos.y + dy, 0, 49) as i32 }
    } else {
        pos
    }
}

/// `first_fighter` gives the entry of `content` that comes first among those held in
/// `fighters`, and nothing exactly when none is.
proof fn lemma_first_fighter_is_first(content: Seq<u32>, fighters: Seq<u32>)
    ensures
        first_fighter(content, fighters) is None
            <==> forall|j: int| 0 <= j < content.len() ==> !fighters.contains(#[trigger] content[j]),
        first_fighter(content, fighters) matches Some(t) ==> exists|j: int| {
            &&& 0 <= j < content.len()
            &&& content[j] == t
            &&& fighters.contains(t)
            &&& forall|i: int| 0 <= i < j ==> !fighters.contains(#[trigger] content[i])
        },
    decreases content.len(),
{
    if content.len() > 0 && !fighters.contains(content[0]) {
        let rest = content.drop_first();
        lemma_first_fighter_is_first(rest, fighters);
        assert forall|j: int| 0 <= j < rest.len() implies #[trigger] rest[j] == content[j + 1] by {}
        if first_fighter(content, fighters) is None {
            assert forall|j: int| 0 <= j < content.len() implies !fighters.contains(#[trigger] content[j]) by {
                if j > 0 {
                    assert(rest[j - 1] == content[j]);
                }
            }
        } else {
            let t = first_fighter(content, fighters)->Some_0;
            let j = choose|j: int| {
                &&& 0 <= j < rest.len()
                &&& rest[j] == t
                &&& fighters.contains(t)
                &&& forall|i: int| 0 <= i < j ==> !fighters.contains(#[trigger] rest[i])
            };
            assert(content[j + 1] == t);
            assert forall|i: int| 0 <= i < j + 1 implies !fighters.contains(#[trigger] content[i]) by {
                if i > 0 {
                    assert(rest[i - 1] == content[i]);
                }
            }
        }
        if forall|j: int| 0 <= j < content.len() ==> !fighters.contains(#[trigger] content[j]) {
            assert forall|j: int| 0 <= j < rest.len() implies !fighters.contains(#[trigger] rest[j]) by {
                assert(rest[j] == content[j + 1]);
            }
        }
    }
}

/// What stands on the cell that the step `(dx, dy)` from `pos` reaches.
pub open spec fn dest_content(map: GameMap, pos: Position, dx: i32, dy: i32) -> Seq<u32> {
    map.tile_content@[dest_index(map, pos, dx, dy)]@
}

/// Law: bumping into an entity that can fight attacks it, whatever the destination's
/// blocking flag says: when the destination holds an id from `fighters`, the outcome
/// is an attack on the first such id in the destination's contents and the player
/// stays where it was. Only when it holds none does the blocking flag decide between
/// moving and being blocked.
pub proof fn lemma_attack_before_blocking(map: GameMap, pos: Position, dx: i32, dy: i32, fighters: Seq<u32>)
    ensures
        (exists|j: int| 0 <= j < dest_content(map, pos, dx, dy).len()
            && fighters.contains(#[trigger] dest_content(map, pos, dx, dy)[j])) ==> exists|j: int| {
            &&& 0 <= j < dest_content(map, pos, dx, dy).len()
            &&& fighters.contains(dest_content(map, pos, dx, dy)[j])
            &&& forall|i: int| 0 <= i < j ==> !fighters.contains(#[trigger] dest_content(map, pos, dx, dy)[i])
            &&& move_outcome(map, pos, dx, dy, fighters) == MoveOutcome::Attacked(dest_content(map, pos, dx, dy)[j])
        },
        (exists|j: int| 0 <= j < dest_content(map, pos, dx, dy).len()
            && fighters.contains(#[trigger] dest_content(map, pos, dx, dy)[j])) ==> pos_after(map, pos, dx, dy, fighters) == pos,
        (forall|j: int| 0 <= j < dest_content(map, pos, dx, dy).len()
            ==> !fighters.contains(#[trigger] dest_content(map, pos, dx, dy)[j])) ==> move_outcome(map, pos, dx, dy, fighters)
            == if map.blocked@[dest_index(map, pos, dx, dy)] { MoveOutcome::Blocked } else { MoveOutcome::Moved },
{
    let c = dest_content(map, pos, dx, dy);
    lemma_first_fighter_is_first(c, fighters);
    if exists|j: int| 0 <= j < c.len() && fighters.contains(#[trigger] c[j]) {
        let j0 = choose|j: int| 0 <= j < c.len() && fighters.contains(#[trigger] c[j]);
        assert(first_fighter(c, fighters) is Some);
    }
}

/// Tries to move the player by `(delta_x, delta_y)`. If the destination holds an
/// entity that can fight (an id in `fighters`), the player attacks the first such one
/// and stays; otherwise, if the destination is not blocked, the player moves there,
/// held to columns 0 to 79 and rows 0 to 49, and its view is marked for recomputing;
/// otherwise nothing changes.
pub fn try_move_player(
    delta_x: i32,
    delta_y: i32,
    pos: &mut Position,
    vs: &mut Viewshed,
    map: &GameMap,
    fighters: &Vec<u32>,
) -> (outcome: MoveOutcome)
    requires
        step_in_map(*map, *old(pos), delta_x, delta_y, fighters@),
    ensures
        outcome == move_outcome(*map, *old(pos), delta_x, delta_y, fighters@),
        *final(pos) == pos_after(*map, *old(pos), delta_x, delta_y, fighters@),
        final(vs).dirty == (old(vs).dirty || outcome == MoveOutcome::Moved),
        final(vs).visible_tiles@ == old(vs).visible_tiles@,
        final(vs).range == old(vs).range,
{
    let nx = pos.x + delta_x;
    let ny = pos.y + delta_y;
    let dest_idx = map.xy_idx(nx, ny);
    match find_fighter(&map.tile_content[dest_idx], fighters) {
        Some(target) => {
            return MoveOutcome::Attacked(target);
        },
        None => {},
    }
    if !map.blocked[dest_idx] {
        let cx = if nx < 0 { 0 } else { nx };
        pos.x = if cx > 79 { 79 } else { cx };
        let cy = if ny < 0 { 0 } else { ny };
        pos.y = if cy > 49 { 49 } else { cy };
        vs.dirty = true;
        MoveOutcome::Moved
    } else {
        MoveOutcome::Blocked
    }
}

/// The key pressed, if it is a movement key, leads from `pos` to a cell of the map.
pub open spec fn key_move_in_map(map: GameMap, pos: Position, key: Option<Key>, fighters: Seq<u32>) -> bool {
    match key {
        Some(k) => match key_delta(k) {
            Some((dx, dy)) => step_in_map(map, pos, dx, dy, fighters),
            None => true,
        },
        None => true,
    }
}

/// Handles the key pressed this frame, if any. A movement key makes the player try to
/// move (see `try_move_player`), gives what that did, and starts the player's turn; no
/// key, or any other key, changes nothing and keeps the game waiting for input.
pub fn player_input(
    key: Option<Key>,
    pos: &mut Position,
    vs: &mut Viewshed,
    map: &GameMap,
    fighters: &Vec<u32>,
) -> (r: (RunState, Option<MoveOutcome>))
    requires
        key_move_in_map(*map, *old(pos), key, fighters@),
    ensures
        final(vs).visible_tiles@ == old(vs).visible_tiles@,
        final(vs).range == old(vs).range,
        match key {
            Some(k) => match key_delta(k) {
                Some((dx, dy)) => {
                    &&& r.0 == RunState::PlayerTurn
                    &&& r.1 == Some(move_outcome(*map, *old(pos), dx, dy, fighters@))
                    &&& *final(pos) == pos_after(*map, *old(pos), dx, dy, fighters@)
                    &&& final(vs).dirty == (old(vs).dirty || r.1 == Some(MoveOutcome::Moved))
                },
                None => r == (RunState::AwaitingInput, None::<MoveOutcome>) && *final(pos) == *old(pos)
                    && final(vs).dirty == old(vs).dirty,
            },
            None => r == (RunState::AwaitingInput, None::<MoveOutcome>) && *final(pos) == *old(pos)
                && final(vs).dirty == old(vs).dirty,
        },
{
    match key {
        None => (RunState::AwaitingInput, None),
        Some(k) => match move_delta(k) {
            Some((dx, dy)) => {
                let outcome = try_move_player(dx, dy, pos, vs, map, fighters);
                (RunState::PlayerTurn, Some(outcome))
            },
            None => (RunState::AwaitingInput, None),
        },
    }
}

} // verus!
