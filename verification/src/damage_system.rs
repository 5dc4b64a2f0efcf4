use vstd::prelude::*;
use crate::components::{CombatStats, SufferDamage};
use crate::gamelog::GameLog;

verus! {

/// The sum of `s`, added from the front.
pub open spec fn total(s: Seq<i32>) -> int
    decreases s.len(),
{
    if s.len() == 0 {
        0
    } else {
        total(s.drop_last()) + s.last()
    }
}

/// Adding up `s` from the front never leaves the range of `i32`.
pub open spec fn sums_fit(s: Seq<i32>) -> bool {
    forall|k: int| 0 <= k <= s.len() ==> i32::MIN <= #[trigger] total(s.take(k)) <= i32::MAX
}

/// Takes the hits of `damage` off `stats.hp`; the other stats stay.
pub fn apply_pending_damage(stats: &mut CombatStats, damage: &SufferDamage)
    requires
        sums_fit(damage.amount@),
        i32::MIN <= old(stats).hp - total(damage.amount@) <= i32::MAX,
    ensures
        final(stats).hp == old(stats).hp - total(damage.amount@),
        final(stats).max_hp == old(stats).max_hp,
        final(stats).defense == old(stats).defense,
        final(stats).power == old(stats).power,
{
    let n = damage.amount.len();
    let mut sum: i32 = 0;
    let mut i: usize = 0;
    assert(damage.amount@.take(0) =~= Seq::<i32>::empty());
    while i < n
        invariant
            n == damage.amount@.len(),
            i <= n,
            sums_fit(damage.amount@),
            sum == total(damage.amount@.take(i as int)),
        decreases n - i,
    {
        assert(damage.amount@.take(i + 1).drop_last() =~= damage.amount@.take(i as int));
        assert(i32::MIN <= total(damage.amount@.take(i + 1)) <= i32::MAX);
        sum = sum + damage.amount[i];
        i = i + 1;
    }
    assert(damage.amount@.take(n as int) =~= damage.amount@);
    stats.hp = stats.hp - sum;
}

/// What is known of an entity that can die: its id, its hit points, whether it is the
/// player, and its name if it has one.
pub struct Combatant {
    pub entity: u32,
    pub hp: i32,
    pub is_player: bool,
    pub name: Option<String>,
}

/// The entities to delete, and how many player entities have died (which are kept).
pub struct DeathReport {
    pub dead: Vec<u32>,
    pub dead_players: usize,
}

/// Whether `c` dies now: it has no hit points left.
pub open spec fn is_down(c: Combatant) -> bool {
    c.hp < 1
}

/// The ids of the entities among `cs` that die and are not the player, in order.
pub open spec fn dead_ids(cs: Seq<Combatant>) -> Seq<u32>
    decreases cs.len(),
{
    if cs.len() == 0 {
        Seq::empty()
    } else {
        let c = cs.last();
        let rest = dead_ids(cs.drop_last());
        if is_down(c) && !c.is_player { rest.push(c.entity) } else { rest }
    }
}

/// How many player entities among `cs` die.
pub open spec fn dead_player_count(cs: Seq<Combatant>) -> nat
    decreases cs.len(),
{
    if cs.len() == 0 {
        0
    } else {
        let c = cs.last();
        dead_player_count(cs.drop_last()) + if is_down(c) && c.is_player { 1nat } else { 0nat }
    }
}

/// The log lines the deaths among `cs` add: "<name> became tame!" for each named
/// entity that dies and is not the player, in order.
pub open spec fn death_messages(cs: Seq<Combatant>) -> Seq<Seq<char>>
    decreases cs.len(),
{
    if cs.len() == 0 {
        Seq::empty()
    } else {
        let c = cs.last();
        let rest = death_messages(cs.drop_last());
        if is_down(c) && !c.is_player && c.name is Some {
            rest.push(c.name->Some_0@ + " became tame!"@)
        } else {
            rest
        }
    }
}

/// The views of the log's entries.
pub open spec fn log_view(log: GameLog) -> Seq<Seq<char>> {
    log.entries@.map_values(|s: String| s@)
}

/// Finds the entities that have run out of hit points: those that are not the player
/// are to be deleted, and each named one adds "<name> became tame!" to the log; the
/// player is never deleted, only counted.
pub fn find_the_dead(combatants: &Vec<Combatant>, log: &mut GameLog) -> (report: DeathReport)
    ensures
        report.dead@ == dead_ids(combatants@),
        report.dead_players == dead_player_count(combatants@),
        log_view(*final(log)) == log_view(*old(log)) + death_messages(combatants@),
{
    let mut dead: Vec<u32> = Vec::new();
    let mut dead_players: usize = 0;
    let n = combatants.len();
    let mut i: usize = 0;
    assert(combatants@.take(0) =~= Seq::<Combatant>::empty());
    assert(log_view(*log) =~= log_view(*old(log)) + Seq::<Seq<char>>::empty());
    while i < n
        invariant
            n == combatants@.len(),
            i <= n,
            dead@ == dead_ids(combatants@.take(i as int)),
            dead_players == dead_player_count(combatants@.take(i as int)),
            dead_players <= i,
            log_view(*log) == log_view(*old(log)) + death_messages(combatants@.take(i as int)),
        decreases n - i,
    {
        let ghost before = combatants@.take(i as int);
        assert(combatants@.take(i + 1).drop_last() =~= before);
        let c = &combatants[i];
        if c.hp < 1 {
            if !c.is_player {
                match &c.name {
                    Some(victim_name) => {
                        let mut msg = victim_name.clone();
                        msg.append(" became tame!");
                        assert(msg@ == combatants@[i as int].name->Some_0@ + " became tame!"@);
                        let ghost prev = *log;
                        log.entries.push(msg);
                        assert(log_view(*log) =~= log_view(prev).push(msg@));
                        assert(log_view(*log) =~= log_view(*old(log)) + death_messages(combatants@.take(i + 1)));
                    },
                    None => {},
                }
                dead.push(c.entity);
            } else {
                dead_players = dead_players + 1;
            }
        }
        i = i + 1;
    }
    assert(combatants@.take(n as int) =~= combatants@);
    DeathReport { dead, dead_players }
}

/// The entries of `cs` left once the dead are deleted: all but those that die and are
/// not the player, in order.
pub open spec fn survivors(cs: Seq<Combatant>) -> Seq<Combatant>
    decreases cs.len(),
{
    if cs.len() == 0 {
        Seq::empty()
    } else {
        let c = cs.last();
        let rest = survivors(cs.drop_last());
        if is_down(c) && !c.is_player { rest } else { rest.push(c) }
    }
}

/// Law: deleting the dead twice is deleting them once. Among the survivors of a pass
/// nobody is to be deleted and no line is logged; a downed player is still counted as
/// before; and a second pass leaves the same survivors.
pub proof fn lemma_delete_dead_idempotent(cs: Seq<Combatant>)
    ensures
        dead_ids(survivors(cs)) == Seq::<u32>::empty(),
        death_messages(survivors(cs)) == Seq::<Seq<char>>::empty(),
        dead_player_count(survivors(cs)) == dead_player_count(cs),
        survivors(survivors(cs)) == survivors(cs),
    decreases cs.len(),
{
    if cs.len() > 0 {
        let c = cs.last();
        let rest = survivors(cs.drop_last());
        lemma_delete_dead_idempotent(cs.drop_last());
        if !(is_down(c) && !c.is_player) {
            assert(rest.push(c).drop_last() =~= rest);
            assert(rest.push(c).last() == c);
        }
    }
}

/// Law: a hit adds its amount to the victim's pending total.
pub proof fn lemma_hit_adds_to_total(store: Map<u32, SufferDamage>, victim: u32, amount: i32)
    ensures
        total(crate::components::damage_after_hit(store, victim, amount))
            == (if store.contains_key(victim) { total(store[victim].amount@) } else { 0 }) + amount,
{
    let s = crate::components::damage_after_hit(store, victim, amount);
    let base = if store.contains_key(victim) { store[victim].amount@ } else { Seq::<i32>::empty() };
    assert(s.drop_last() =~= base);
    assert(s.last() == amount);
    assert(total(Seq::<i32>::empty()) == 0);
    assert(total(s) == total(base) + amount);
}

/// Whether entry `k` of `cs` is a downed non-player with id `e`.
pub open spec fn downed_other(cs: Seq<Combatant>, k: int, e: u32) -> bool {
    0 <= k < cs.len() && cs[k].entity == e && is_down(cs[k]) && !cs[k].is_player
}

/// Whether some entry of `cs` is a downed non-player with id `e`.
pub open spec fn has_downed_other(cs: Seq<Combatant>, e: u32) -> bool {
    exists|k: int| #[trigger] downed_other(cs, k, e)
}

/// Law: exactly the entities that ran out of hit points and are not the player are
/// deleted; in particular, the player is never deleted when ids are unique.
pub proof fn lemma_dead_are_downed_non_players(cs: Seq<Combatant>)
    ensures
        forall|e: u32| #[trigger] dead_ids(cs).contains(e) <==> has_downed_other(cs, e),
    decreases cs.len(),
{
    if cs.len() > 0 {
        let rest = cs.drop_last();
        let c = cs.last();
        let d = dead_ids(cs);
        let dr = dead_ids(rest);
        let cond = is_down(c) && !c.is_player;
        lemma_dead_are_downed_non_players(rest);
        assert forall|e: u32| #[trigger] d.contains(e) <==> (dr.contains(e) || (cond && c.entity == e)) by {
            if cond {
                assert(d == dr.push(c.entity));
                if dr.contains(e) {
                    let j = choose|j: int| 0 <= j < dr.len() && dr[j] == e;
                    assert(d[j] == e);
                }
                if c.entity == e {
                    assert(d[dr.len() as int] == e);
                }
                if d.contains(e) {
                    let j = choose|j: int| 0 <= j < d.len() && d[j] == e;
                    if j < dr.len() {
                        assert(dr[j] == e);
                    }
                }
            } else {
                assert(d == dr);
            }
        }
        assert forall|e: u32| #[trigger] has_downed_other(cs, e) <==> (has_downed_other(rest, e) || (cond && c.entity == e)) by {
            if exists|k: int| #[trigger] downed_other(cs, k, e) {
                let k = choose|k: int| #[trigger] downed_other(cs, k, e);
                if k < rest.len() {
                    assert(rest[k] == cs[k]);
                    assert(downed_other(rest, k, e));
                } else {
                    assert(cs[k] == c);
                }
            }
            if exists|k: int| #[trigger] downed_other(rest, k, e) {
                let k = choose|k: int| #[trigger] downed_other(rest, k, e);
                assert(rest[k] == cs[k]);
                assert(downed_other(cs, k, e));
            }
            if cond && c.entity == e {
                assert(downed_other(cs, cs.len() - 1, e));
            }
        }
    }
}

} // verus!
