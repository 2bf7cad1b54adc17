//! What the heads-up display shows: the player's health, the dungeon level
//! and the first items of the inventory.

use vstd::prelude::*;
use crate::components::{Entity, Health};
use crate::world::{first_player, Slots, World};

verus! {

/// How many carried items the display lists at most.
pub const MAX_ITEMS_DISPLAY: usize = 8;

/// The values drawn by the display, ready to be laid out.
pub struct HudView {
    pub health: Health,
    /// The dungeon level as shown, counted from one.
    pub level: u64,
    /// Names of the listed items, in display order.
    pub inventory: Vec<String>,
}

/// Whether slot `i` holds a named item carried by `player`.
pub open spec fn listed(es: Slots, player: Entity, i: int) -> bool {
    &&& 0 <= i < es.len()
    &&& es[i] matches Some(c)
    &&& c.item
    &&& c.name is Some
    &&& c.carried == Some(player)
}

/// The names of the items below slot `n` that `player` carries, in slot
/// order.
pub open spec fn carried_names(es: Slots, player: Entity, n: int) -> Seq<String>
    decreases n,
{
    if n <= 0 {
        Seq::empty()
    } else if listed(es, player, n - 1) {
        carried_names(es, player, n - 1).push(es[n - 1]->0.name->0)
    } else {
        carried_names(es, player, n - 1)
    }
}

/// The first `limit` entries of `names`, or all of them if there are fewer.
pub open spec fn first_names(names: Seq<String>, limit: int) -> Seq<String> {
    if names.len() <= limit {
        names
    } else {
        names.take(limit)
    }
}

/// Whether there is anything to display: a player that has health.
pub open spec fn hud_shown(es: Slots) -> bool {
    first_player(es, es.len() as int) matches Some(p) && es[p.0 as int]->0.health is Some
}

/// Collects what the display shows, or `None` when there is no player with
/// health.
pub fn hud(world: &World) -> (r: Option<HudView>)
    ensures
        r.is_some() == hud_shown(world.entities@),
        r matches Some(view) ==> {
            let p = first_player(world.entities@, world.entities@.len() as int)->0;
            let c = world.entities@[p.0 as int]->0;
            &&& view.health == c.health->0
            &&& view.level == c.player->0.map_level + 1
            &&& view.inventory@ == first_names(
                carried_names(world.entities@, p, world.entities@.len() as int),
                MAX_ITEMS_DISPLAY as int,
            )
        },
{
    let player = match world.player() {
        Some(p) => p,
        None => {
            return None;
        },
    };
    proof {
        crate::world::lemma_first_player_is_first(world.entities@, world.entities@.len() as int);
    }
    let (health, level): (Health, u64) = match world.get(player) {
        Some(c) => match (c.health, c.player) {
            (Some(h), Some(pl)) => (h, pl.map_level as u64 + 1),
            _ => {
                return None;
            },
        },
        None => {
            return None;
        },
    };
    let mut inventory: Vec<String> = Vec::new();
    let mut i: usize = 0;
    while i < world.entities.len()
        invariant
            i <= world.entities@.len(),
            inventory@ == first_names(
                carried_names(world.entities@, player, i as int),
                MAX_ITEMS_DISPLAY as int,
            ),
        decreases world.entities@.len() - i,
    {
        let ghost before = carried_names(world.entities@, player, i as int);
        if let Some(c) = &world.entities[i] {
            if c.item {
                if let (Some(name), Some(who)) = (&c.name, c.carried) {
                    if who == player {
                        assert(listed(world.entities@, player, i as int));
                        if inventory.len() < MAX_ITEMS_DISPLAY {
                            inventory.push(name.clone());
                        } else {
                            assert(before.push(*name).take(MAX_ITEMS_DISPLAY as int) == before.take(
                                MAX_ITEMS_DISPLAY as int,
                            ));
                        }
                    }
                }
            }
        }
        i += 1;
    }
    Some(HudView { health, level, inventory })
}

} // verus!
