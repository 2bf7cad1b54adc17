//! Spawning: the player, the amulet, and the monsters and items of a level.

use vstd::prelude::*;
use bracket_lib::prelude::RandomNumberGenerator;
use crate::components::{Components, Entity, Health, Player};
use crate::geometry::Point;
use crate::random::range;
use crate::world::{Slots, World};

verus! {

/// The player as the game starts: ten health, a damage of one, a view yet to
/// be computed, no name.
pub open spec fn player_components(pos: Point) -> Components {
    Components {
        player: Some(Player { map_level: 0 }),
        position: Some(pos),
        health: Some(Health { current: 10, max: 10 }),
        damage: Some(1),
        fov_dirty: Some(true),
        ..Components::spec_blank()
    }
}

/// The attributes of the amulet lying at `pos`, but for its name.
pub open spec fn amulet_components(pos: Point) -> Components {
    Components { item: true, amulet: true, position: Some(pos), ..Components::spec_blank() }
}

/// The attributes, but for the name, of what the draws `roll` and
/// `monster_roll` spawn at `pos`: a healing potion, a dungeon map, a sword,
/// or else a monster, which is an orc on a high `monster_roll` and a goblin
/// otherwise.
pub open spec fn spawn_components(roll: int, monster_roll: int, pos: Point) -> Components {
    if roll == 1 {
        Components { item: true, position: Some(pos), healing: Some(6), ..Components::spec_blank() }
    } else if roll == 2 {
        Components { item: true, position: Some(pos), reveals_map: true, ..Components::spec_blank() }
    } else if roll == 3 {
        Components { item: true, position: Some(pos), damage: Some(1), ..Components::spec_blank() }
    } else {
        Components {
            enemy: true,
            position: Some(pos),
            health: if monster_roll > 8 {
                Some(Health { current: 2, max: 2 })
            } else {
                Some(Health { current: 1, max: 1 })
            },
            damage: Some(1),
            fov_dirty: Some(true),
            ..Components::spec_blank()
        }
    }
}

/// The name of what the draws spawn.
pub open spec fn spawn_name(roll: int, monster_roll: int) -> Seq<char> {
    if roll == 1 {
        "Healing Potion"@
    } else if roll == 2 {
        "Dungeon Map"@
    } else if roll == 3 {
        "Rusty Sword"@
    } else if monster_roll > 8 {
        "Orc"@
    } else {
        "Goblin"@
    }
}

/// `c` has the name `name` and otherwise the attributes of `unnamed`.
pub open spec fn named(c: Components, name: Seq<char>, unnamed: Components) -> bool {
    &&& c.name matches Some(n)
    &&& n@ == name
    &&& (Components { name: None, ..c }) == unnamed
}

/// `c` is what some pair of draws spawns at `pos`.
pub open spec fn is_spawn(c: Components, pos: Point) -> bool {
    exists|roll: int, monster_roll: int|
        1 <= roll < 7 && 1 <= monster_roll < 11 && #[trigger] named(
            c,
            spawn_name(roll, monster_roll),
            spawn_components(roll, monster_roll, pos),
        )
}

/// The slots `after` are the slots `before` followed by one spawn for each
/// of `spots`, in order.
pub open spec fn populated(before: Slots, after: Slots, spots: Seq<Point>) -> bool {
    &&& after.len() == before.len() + spots.len()
    &&& after.take(before.len() as int) == before
    &&& forall|k: int|
        0 <= k < spots.len() ==> (#[trigger] after[before.len() + k]) is Some && is_spawn(
            after[before.len() + k]->0,
            spots[k],
        )
}

/// Adds the player at `pos`.
pub fn spawn_player(ecs: &mut World, pos: Point) -> (e: Entity)
    ensures
        e.0 == old(ecs).entities@.len(),
        final(ecs).entities@ == old(ecs).entities@.push(Some(player_components(pos))),
        final(ecs).moves == old(ecs).moves,
        final(ecs).attacks == old(ecs).attacks,
        final(ecs).activations == old(ecs).activations,
{
    let mut c = Components::blank();
    c.player = Some(Player { map_level: 0 });
    c.position = Some(pos);
    c.health = Some(Health { current: 10, max: 10 });
    c.damage = Some(1);
    c.fov_dirty = Some(true);
    ecs.spawn(c)
}

/// Adds the amulet, lying at `pos`.
pub fn spawn_amulet_of_yala(ecs: &mut World, pos: Point) -> (e: Entity)
    ensures
        e.0 == old(ecs).entities@.len(),
        final(ecs).entities@.len() == old(ecs).entities@.len() + 1,
        final(ecs).entities@.take(old(ecs).entities@.len() as int) == old(ecs).entities@,
        final(ecs).entities@[e.0 as int] matches Some(c) && named(
            c,
            "Amulet of Yala"@,
            amulet_components(pos),
        ),
        final(ecs).moves == old(ecs).moves,
        final(ecs).attacks == old(ecs).attacks,
        final(ecs).activations == old(ecs).activations,
{
    let mut c = Components::blank();
    c.item = true;
    c.amulet = true;
    c.position = Some(pos);
    c.name = Some("Amulet of Yala".to_owned());
    let ghost before = ecs.entities@;
    let e = ecs.spawn(c);
    assert(ecs.entities@.take(before.len() as int) == before);
    e
}

/// Adds at `pos` what the draws `roll` and `monster_roll` stand for.
pub fn spawn_for_roll(ecs: &mut World, pos: Point, roll: i32, monster_roll: i32) -> (e: Entity)
    ensures
        e.0 == old(ecs).entities@.len(),
        final(ecs).entities@.len() == old(ecs).entities@.len() + 1,
        final(ecs).entities@.take(old(ecs).entities@.len() as int) == old(ecs).entities@,
        final(ecs).entities@[e.0 as int] matches Some(c) && named(
            c,
            spawn_name(roll as int, monster_roll as int),
            spawn_components(roll as int, monster_roll as int, pos),
        ),
        final(ecs).moves == old(ecs).moves,
        final(ecs).attacks == old(ecs).attacks,
        final(ecs).activations == old(ecs).activations,
{
    let mut c = Components::blank();
    c.position = Some(pos);
    if roll == 1 {
        c.item = true;
        c.healing = Some(6);
        c.name = Some("Healing Potion".to_owned());
    } else if roll == 2 {
        c.item = true;
        c.reveals_map = true;
        c.name = Some("Dungeon Map".to_owned());
    } else if roll == 3 {
        c.item = true;
        c.damage = Some(1);
        c.name = Some("Rusty Sword".to_owned());
    } else {
        c.enemy = true;
        c.damage = Some(1);
        c.fov_dirty = Some(true);
        if monster_roll > 8 {
            c.health = Some(Health { current: 2, max: 2 });
            c.name = Some("Orc".to_owned());
        } else {
            c.health = Some(Health { current: 1, max: 1 });
            c.name = Some("Goblin".to_owned());
        }
    }
    let ghost before = ecs.entities@;
    let e = ecs.spawn(c);
    assert(ecs.entities@.take(before.len() as int) == before);
    e
}

/// Adds a monster or an item at `pos`, as two random draws decide.
pub fn spawn_entity(ecs: &mut World, rng: &mut RandomNumberGenerator, pos: Point)
    ensures
        populated(old(ecs).entities@, final(ecs).entities@, seq![pos]),
        final(ecs).moves == old(ecs).moves,
        final(ecs).attacks == old(ecs).attacks,
        final(ecs).activations == old(ecs).activations,
{
    let roll = range(rng, 1, 7);
    let monster_roll = range(rng, 1, 11);
    let e = spawn_for_roll(ecs, pos, roll, monster_roll);
    proof {
        let c = ecs.entities@[e.0 as int]->0;
        assert(named(
            c,
            spawn_name(roll as int, monster_roll as int),
            spawn_components(roll as int, monster_roll as int, pos),
        ));
        assert(is_spawn(c, pos));
    }
}

/// Adds a monster or an item at each of `spots`, in order.
pub fn spawn_entities(ecs: &mut World, rng: &mut RandomNumberGenerator, spots: &Vec<Point>)
    ensures
        populated(old(ecs).entities@, final(ecs).entities@, spots@),
        final(ecs).moves == old(ecs).moves,
        final(ecs).attacks == old(ecs).attacks,
        final(ecs).activations == old(ecs).activations,
{
    let ghost before = ecs.entities@;
    let mut k: usize = 0;
    assert(before.take(before.len() as int) == before);
    while k < spots.len()
        invariant
            k <= spots@.len(),
            before == old(ecs).entities@,
            populated(before, ecs.entities@, spots@.take(k as int)),
            ecs.moves == old(ecs).moves,
            ecs.attacks == old(ecs).attacks,
            ecs.activations == old(ecs).activations,
        decreases spots@.len() - k,
    {
        let ghost mid = ecs.entities@;
        spawn_entity(ecs, rng, spots[k]);
        proof {
            let now = ecs.entities@;
            assert(now.take(mid.len() as int) == mid);
            assert(now.take(before.len() as int) == mid.take(before.len() as int));
            assert forall|j: int| 0 <= j < spots@.take(k + 1).len() implies (#[trigger] now[before.len()
                + j]) is Some && is_spawn(now[before.len() + j]->0, spots@.take(k + 1)[j]) by {
                if j < k {
                    assert(now[before.len() + j] == mid[before.len() + j]);
                    assert(spots@.take(k as int)[j] == spots@[j]);
                } else {
                    assert(now[mid.len() as int + 0] is Some);
                    assert(seq![spots@[k as int]][0] == spots@[k as int]);
                }
            }
        }
        k += 1;
    }
    proof {
        assert(spots@.take(k as int) == spots@);
    }
}

} // verus!
