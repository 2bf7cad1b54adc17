//! Item use: every queued activation takes effect once and consumes its
//! item.

use vstd::prelude::*;
use crate::components::{ActivateItem, Components, Entity, Health};
use crate::map::GridMap;
use crate::systems::combat::{can_hurt, clamp_i32};
use crate::world::{alive, without_all, Slots, World, lemma_without_all_frame};

verus! {

/// Health to be restored to `target`.
#[derive(Clone, Copy, Debug, PartialEq, Eq, Structural)]
pub struct Healing {
    pub target: Entity,
    pub amount: i32,
}

/// What activation `a` heals: the item's healing amount, for its user, when
/// the item is present and heals at all.
pub open spec fn healing_of(es: Slots, a: ActivateItem) -> Option<Healing> {
    if alive(es, a.item) {
        match es[a.item.0 as int]->0.healing {
            Some(amount) => Some(Healing { target: a.used_by, amount }),
            None => None,
        }
    } else {
        None
    }
}

/// Whether activation `a` reveals the map.
pub open spec fn reveals(es: Slots, a: ActivateItem) -> bool {
    alive(es, a.item) && es[a.item.0 as int]->0.reveals_map
}

/// The healing that the activations ask for, in queue order. All of it is
/// read off the slots as they are before anything is applied.
pub open spec fn pending_heals(es: Slots, acts: Seq<ActivateItem>) -> Seq<Healing>
    decreases acts.len(),
{
    if acts.len() == 0 {
        Seq::empty()
    } else {
        match healing_of(es, acts.last()) {
            Some(h) => pending_heals(es, acts.drop_last()).push(h),
            None => pending_heals(es, acts.drop_last()),
        }
    }
}

/// Whether any of the activations reveals the map.
pub open spec fn any_reveals(es: Slots, acts: Seq<ActivateItem>) -> bool {
    exists|k: int| 0 <= k < acts.len() && reveals(es, #[trigger] acts[k])
}

/// Current health after restoring `amount`: never above the maximum, and
/// kept within `i32`.
pub open spec fn healed(h: Health, amount: i32) -> Health {
    Health {
        current: clamp_i32(
            if h.current + amount < h.max {
                h.current + amount
            } else {
                h.max as int
            },
        ),
        max: h.max,
    }
}

/// The slots after one healing. A target that is gone or has no health is
/// passed over.
pub open spec fn heal(es: Slots, h: Healing) -> Slots {
    if can_hurt(es, h.target) {
        let c = es[h.target.0 as int]->0;
        es.update(
            h.target.0 as int,
            Some(Components { health: Some(healed(c.health->0, h.amount)), ..c }),
        )
    } else {
        es
    }
}

/// The slots after all of `heals` were applied in order.
pub open spec fn after_heals(es: Slots, heals: Seq<Healing>) -> Slots
    decreases heals.len(),
{
    if heals.len() == 0 {
        es
    } else {
        heal(after_heals(es, heals.drop_last()), heals.last())
    }
}

/// The items that the activations consume, in queue order.
pub open spec fn used_items(acts: Seq<ActivateItem>) -> Seq<Entity> {
    Seq::new(acts.len(), |k: int| acts[k].item)
}

/// The slots once item use is over: all healing applied, then every used
/// item removed.
pub open spec fn item_outcome(es: Slots, acts: Seq<ActivateItem>) -> Slots {
    without_all(after_heals(es, pending_heals(es, acts)), used_items(acts))
}

fn apply_heal(world: &mut World, h: Healing)
    ensures
        final(world).entities@ == heal(old(world).entities@, h),
        final(world).moves == old(world).moves,
        final(world).attacks == old(world).attacks,
        final(world).activations == old(world).activations,
{
    if h.target.0 < world.entities.len() {
        if let Some(c) = &mut world.entities[h.target.0] {
            if let Some(health) = c.health {
                let sum: i64 = health.current as i64 + h.amount as i64;
                let capped: i64 = if sum < health.max as i64 {
                    sum
                } else {
                    health.max as i64
                };
                let current: i32 = if capped < -2147483648 {
                    -2147483648
                } else {
                    capped as i32
                };
                c.health = Some(Health { current, max: health.max });
            }
        }
    }
}

/// Resolves every queued item activation and empties the queue.
///
/// A healing item restores its amount to its user, up to the user's maximum
/// health. A map item reveals every tile. All healing is read off the items
/// before any of it is applied, and every named item is removed at the end.
/// An activation whose item is already gone has no effect.
pub fn use_item(world: &mut World, map: &mut GridMap)
    ensures
        final(world).entities@ == item_outcome(old(world).entities@, old(world).activations@),
        final(world).entities@.len() == old(world).entities@.len(),
        final(world).activations@.len() == 0,
        final(world).moves == old(world).moves,
        final(world).attacks == old(world).attacks,
        final(map).tiles == old(map).tiles,
        final(map).revealed_tiles@.len() == old(map).revealed_tiles@.len(),
        any_reveals(old(world).entities@, old(world).activations@) ==> forall|i: int|
            0 <= i < final(map).revealed_tiles@.len() ==> final(map).revealed_tiles@[i],
        !any_reveals(old(world).entities@, old(world).activations@) ==> final(map).revealed_tiles
            == old(map).revealed_tiles,
{
    let ghost es0 = world.entities@;
    let ghost acts = world.activations@;
    let mut heals: Vec<Healing> = Vec::new();
    let mut items: Vec<Entity> = Vec::new();
    let mut show_map = false;
    let mut k: usize = 0;
    while k < world.activations.len()
        invariant
            k <= acts.len(),
            world.activations@ == acts,
            world.entities@ == es0,
            heals@ == pending_heals(es0, acts.take(k as int)),
            items@ == used_items(acts.take(k as int)),
            show_map == any_reveals(es0, acts.take(k as int)),
        decreases acts.len() - k,
    {
        let a = world.activations[k];
        proof {
            assert(acts.take(k + 1).drop_last() == acts.take(k as int));
            assert(acts.take(k + 1).last() == a);
        }
        let ghost seen = show_map;
        if let Some(c) = world.get(a.item) {
            if let Some(amount) = c.healing {
                heals.push(Healing { target: a.used_by, amount });
            }
            if c.reveals_map {
                show_map = true;
            }
        }
        items.push(a.item);
        proof {
            let now = acts.take(k + 1);
            let was = acts.take(k as int);
            assert(items@ == used_items(now));
            if reveals(es0, a) {
                assert(reveals(es0, now[k as int]));
            } else if seen {
                let j = choose|j: int| 0 <= j < was.len() && reveals(es0, #[trigger] was[j]);
                assert(reveals(es0, now[j]));
            } else {
                assert forall|j: int| 0 <= j < now.len() implies !reveals(es0, #[trigger] now[j]) by {
                    if j < k {
                        assert(now[j] == was[j]);
                    }
                }
            }
        }
        k += 1;
    }
    proof {
        assert(acts.take(k as int) == acts);
    }
    let mut j: usize = 0;
    while j < heals.len()
        invariant
            j <= heals@.len(),
            world.entities@ == after_heals(es0, heals@.take(j as int)),
            world.moves == old(world).moves,
            world.attacks == old(world).attacks,
        decreases heals@.len() - j,
    {
        proof {
            assert(heals@.take(j + 1).drop_last() == heals@.take(j as int));
        }
        apply_heal(world, heals[j]);
        j += 1;
    }
    proof {
        assert(heals@.take(j as int) == heals@);
        lemma_heals_keep_len(es0, heals@);
        lemma_without_all_frame(world.entities@, items@);
    }
    world.remove_all(&items);
    world.activations.clear();
    if show_map {
        map.reveal_all();
    }
}

/// Healing changes nothing but health: the slots keep their number.
pub proof fn lemma_heals_keep_len(es: Slots, heals: Seq<Healing>)
    ensures
        after_heals(es, heals).len() == es.len(),
    decreases heals.len(),
{
    if heals.len() > 0 {
        lemma_heals_keep_len(es, heals.drop_last());
    }
}

/// Every item named by an activation is gone once item use is over.
pub proof fn lemma_used_items_are_gone(es: Slots, acts: Seq<ActivateItem>, k: int)
    requires
        0 <= k < acts.len(),
    ensures
        !alive(item_outcome(es, acts), acts[k].item),
{
    let healed = after_heals(es, pending_heals(es, acts));
    lemma_heals_keep_len(es, pending_heals(es, acts));
    lemma_without_all_frame(healed, used_items(acts));
    if acts[k].item.0 < es.len() {
        assert(used_items(acts)[k].0 == acts[k].item.0);
    }
}

} // verus!
