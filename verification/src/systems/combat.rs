//! Combat resolution: every queued attack is applied once, in queue order.

use vstd::prelude::*;
use crate::components::{Components, Entity, Health, WantsToAttack};
use crate::world::{alive, is_player, without_all, Slots, World, lemma_without_all_frame};

verus! {

/// The value of `v` brought into the `i32` range.
pub open spec fn clamp_i32(v: int) -> i32 {
    if v < i32::MIN {
        i32::MIN
    } else if v > i32::MAX {
        i32::MAX
    } else {
        v as i32
    }
}

/// The attacker's own damage; an attacker that is gone or has none
/// contributes zero.
pub open spec fn base_damage(es: Slots, attacker: Entity) -> int {
    if alive(es, attacker) {
        match es[attacker.0 as int]->0.damage {
            Some(d) => d as int,
            None => 0,
        }
    } else {
        0
    }
}

/// The damage bonus that slot `i` grants to `carrier`: its damage when it is
/// carried by `carrier`, else zero.
pub open spec fn weapon_bonus(es: Slots, carrier: Entity, i: int) -> int {
    if 0 <= i < es.len() {
        match es[i] {
            Some(c) => if c.carried == Some(carrier) {
                match c.damage {
                    Some(d) => d as int,
                    None => 0,
                }
            } else {
                0
            },
            None => 0,
        }
    } else {
        0
    }
}

/// The sum of the bonuses of the slots below `n`.
pub open spec fn carried_damage(es: Slots, carrier: Entity, n: int) -> int
    decreases n,
{
    if n <= 0 {
        0
    } else {
        carried_damage(es, carrier, n - 1) + weapon_bonus(es, carrier, n - 1)
    }
}

/// Base damage plus the bonus of everything the attacker carries.
pub open spec fn attack_damage(es: Slots, attacker: Entity) -> int {
    base_damage(es, attacker) + carried_damage(es, attacker, es.len() as int)
}

/// Whether an attack on `victim` has any effect: the victim is present and
/// has health.
pub open spec fn can_hurt(es: Slots, victim: Entity) -> bool {
    alive(es, victim) && es[victim.0 as int]->0.health is Some
}

/// The slots after one attack: the victim's current health drops by the
/// attack's damage, kept within `i32`. Nothing else changes.
pub open spec fn strike(es: Slots, a: WantsToAttack) -> Slots {
    if can_hurt(es, a.victim) {
        let c = es[a.victim.0 as int]->0;
        let h = c.health->0;
        es.update(
            a.victim.0 as int,
            Some(
                Components {
                    health: Some(
                        Health {
                            current: clamp_i32(h.current - attack_damage(es, a.attacker)),
                            max: h.max,
                        },
                    ),
                    ..c
                },
            ),
        )
    } else {
        es
    }
}

/// Whether a struck victim is to be removed: its health fell below one and
/// it is not the player.
pub open spec fn slain(es: Slots, victim: Entity) -> bool {
    can_hurt(es, victim) && es[victim.0 as int]->0.health->0.current < 1 && !is_player(es, victim)
}

/// The slots after all of `attacks` struck in order, before any removal.
pub open spec fn after_strikes(es: Slots, attacks: Seq<WantsToAttack>) -> Slots
    decreases attacks.len(),
{
    if attacks.len() == 0 {
        es
    } else {
        strike(after_strikes(es, attacks.drop_last()), attacks.last())
    }
}

/// The victims scheduled for removal, in the order their attacks resolved.
/// Each is judged right after its own attack.
pub open spec fn casualties(es: Slots, attacks: Seq<WantsToAttack>) -> Seq<Entity>
    decreases attacks.len(),
{
    if attacks.len() == 0 {
        Seq::empty()
    } else {
        let before = casualties(es, attacks.drop_last());
        if slain(after_strikes(es, attacks), attacks.last().victim) {
            before.push(attacks.last().victim)
        } else {
            before
        }
    }
}

/// The slots once combat is over: all attacks struck, then all casualties
/// removed.
pub open spec fn combat_outcome(es: Slots, attacks: Seq<WantsToAttack>) -> Slots {
    without_all(after_strikes(es, attacks), casualties(es, attacks))
}

fn clamp_to_i32(v: i128) -> (r: i32)
    ensures
        r == clamp_i32(v as int),
{
    if v < -2147483648 {
        -2147483648
    } else if v > 2147483647 {
        2147483647
    } else {
        v as i32
    }
}

/// Computes what one attack by `attacker` takes from its victim.
pub fn damage_of(world: &World, attacker: Entity) -> (d: i128)
    ensures
        d == attack_damage(world.entities@, attacker),
        -(world.entities@.len() + 1) * 0x8000_0000 <= d <= (world.entities@.len() + 1) * 0x8000_0000,
{
    let base: i128 = match world.get(attacker) {
        Some(c) => match c.damage {
            Some(d) => d as i128,
            None => 0,
        },
        None => 0,
    };
    let mut sum: i128 = 0;
    let mut i: usize = 0;
    while i < world.entities.len()
        invariant
            i <= world.entities@.len(),
            sum == carried_damage(world.entities@, attacker, i as int),
            -i * 0x8000_0000 <= sum <= i * 0x8000_0000,
        decreases world.entities@.len() - i,
    {
        let bonus: i128 = match &world.entities[i] {
            Some(c) => match (c.carried, c.damage) {
                (Some(who), Some(d)) => if who == attacker {
                    d as i128
                } else {
                    0
                },
                _ => 0,
            },
            None => 0,
        };
        assert(bonus == weapon_bonus(world.entities@, attacker, i as int));
        sum = sum + bonus;
        i += 1;
    }
    base + sum
}

/// Resolves every queued attack once, in queue order, and empties the queue.
///
/// The victim loses the attacker's damage. A victim whose health falls below
/// one is removed when all attacks have resolved, unless it is the player.
/// An attack on an entity that is gone or has no health has no effect.
pub fn combat(world: &mut World)
    ensures
        final(world).entities@ == combat_outcome(old(world).entities@, old(world).attacks@),
        final(world).entities@.len() == old(world).entities@.len(),
        forall|e: Entity|
            is_player(old(world).entities@, e) ==> #[trigger] is_player(final(world).entities@, e),
        final(world).attacks@.len() == 0,
        final(world).moves == old(world).moves,
        final(world).activations == old(world).activations,
{
    let ghost es0 = world.entities@;
    let ghost attacks = world.attacks@;
    let mut doomed: Vec<Entity> = Vec::new();
    let mut k: usize = 0;
    while k < world.attacks.len()
        invariant
            k <= attacks.len(),
            world.attacks@ == attacks,
            world.entities@ == after_strikes(es0, attacks.take(k as int)),
            doomed@ == casualties(es0, attacks.take(k as int)),
            world.moves == old(world).moves,
            world.activations == old(world).activations,
        decreases attacks.len() - k,
    {
        let a = world.attacks[k];
        proof {
            assert(attacks.take(k + 1).drop_last() == attacks.take(k as int));
            assert(attacks.take(k + 1).last() == a);
        }
        let damage = damage_of(world, a.attacker);
        let ghost before = world.entities@;
        let mut dead = false;
        if a.victim.0 < world.entities.len() {
            if let Some(c) = &mut world.entities[a.victim.0] {
                if let Some(h) = c.health {
                    let current = clamp_to_i32(h.current as i128 - damage);
                    c.health = Some(Health { current, max: h.max });
                    dead = current < 1 && c.player.is_none();
                }
            }
        }
        assert(world.entities@ == strike(before, a));
        assert(dead == slain(world.entities@, a.victim));
        if dead {
            doomed.push(a.victim);
        }
        k += 1;
    }
    proof {
        assert(attacks.take(k as int) == attacks);
        lemma_strikes_keep_len(es0, attacks);
        lemma_without_all_frame(after_strikes(es0, attacks), casualties(es0, attacks));
    }
    world.remove_all(&doomed);
    world.attacks.clear();
    proof {
        assert(world.entities@ == combat_outcome(es0, attacks));
        assert forall|e: Entity| is_player(es0, e) implies #[trigger] is_player(
            world.entities@,
            e,
        ) by {
            lemma_combat_keeps_player(es0, attacks, e);
        }
    }
}

/// Combat never changes the number of slots.
pub proof fn lemma_strikes_keep_len(es: Slots, attacks: Seq<WantsToAttack>)
    ensures
        after_strikes(es, attacks).len() == es.len(),
    decreases attacks.len(),
{
    if attacks.len() > 0 {
        lemma_strikes_keep_len(es, attacks.drop_last());
    }
}

/// Strikes change nothing but health: who is present and who is the player
/// stays as it was.
pub proof fn lemma_strikes_keep_players(es: Slots, attacks: Seq<WantsToAttack>, e: Entity)
    ensures
        alive(after_strikes(es, attacks), e) == alive(es, e),
        is_player(after_strikes(es, attacks), e) == is_player(es, e),
    decreases attacks.len(),
{
    if attacks.len() > 0 {
        lemma_strikes_keep_players(es, attacks.drop_last(), e);
        lemma_strikes_keep_len(es, attacks.drop_last());
    }
}

/// No casualty is a player.
pub proof fn lemma_casualties_spare_players(es: Slots, attacks: Seq<WantsToAttack>, k: int)
    requires
        0 <= k < casualties(es, attacks).len(),
    ensures
        !is_player(es, casualties(es, attacks)[k]),
    decreases attacks.len(),
{
    if attacks.len() > 0 {
        let before = casualties(es, attacks.drop_last());
        if k < before.len() {
            lemma_casualties_spare_players(es, attacks.drop_last(), k);
        } else {
            lemma_strikes_keep_players(es, attacks, attacks.last().victim);
        }
    }
}

/// The player is never removed by combat, whatever its health.
pub proof fn lemma_combat_keeps_player(es: Slots, attacks: Seq<WantsToAttack>, e: Entity)
    requires
        is_player(es, e),
    ensures
        is_player(combat_outcome(es, attacks), e),
{
    let struck = after_strikes(es, attacks);
    let gone = casualties(es, attacks);
    lemma_strikes_keep_players(es, attacks, e);
    lemma_strikes_keep_len(es, attacks);
    lemma_without_all_frame(struck, gone);
    if exists|k: int| 0 <= k < gone.len() && gone[k].0 == e.0 {
        let k = choose|k: int| 0 <= k < gone.len() && gone[k].0 == e.0;
        lemma_casualties_spare_players(es, attacks, k);
        assert(gone[k] == e);
    }
    assert(without_all(struck, gone)[e.0 as int] == struck[e.0 as int]);
}

/// A victim that is not the player and whose health is below one right after
/// an attack on it is gone when combat is over.
pub proof fn lemma_slain_is_removed(es: Slots, attacks: Seq<WantsToAttack>, k: int)
    requires
        0 <= k < attacks.len(),
        slain(after_strikes(es, attacks.take(k + 1)), attacks[k].victim),
    ensures
        !alive(combat_outcome(es, attacks), attacks[k].victim),
{
    lemma_casualty_listed(es, attacks, k);
    lemma_strikes_keep_len(es, attacks);
    lemma_strikes_keep_len(es, attacks.take(k + 1));
    lemma_without_all_frame(after_strikes(es, attacks), casualties(es, attacks));
}

/// A victim slain by the attack at position `k` is among the casualties.
pub proof fn lemma_casualty_listed(es: Slots, attacks: Seq<WantsToAttack>, k: int)
    requires
        0 <= k < attacks.len(),
        slain(after_strikes(es, attacks.take(k + 1)), attacks[k].victim),
    ensures
        exists|j: int|
            0 <= j < casualties(es, attacks).len() && casualties(es, attacks)[j] == attacks[k].victim,
    decreases attacks.len(),
{
    if k == attacks.len() - 1 {
        assert(attacks.take(k + 1) == attacks);
        let c = casualties(es, attacks);
        assert(c[c.len() - 1] == attacks[k].victim);
    } else {
        let shorter = attacks.drop_last();
        assert(shorter.take(k + 1) == attacks.take(k + 1));
        lemma_casualty_listed(es, shorter, k);
        let j = choose|j: int|
            0 <= j < casualties(es, shorter).len() && casualties(es, shorter)[j] == shorter[k].victim;
        assert(casualties(es, attacks)[j] == attacks[k].victim);
    }
}

} // verus!
