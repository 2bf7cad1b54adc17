//! Movement: every queued move is resolved once, in queue order.

use vstd::prelude::*;
use crate::components::{Components, Entity, WantsToMove};
use crate::geometry::Point;
use crate::map::{spec_in_bounds, spec_map_idx, spec_walkable, GridMap, TileType};
use crate::world::{alive, Slots, World};

verus! {

/// Whether an entity may step onto `p`: a tile of the grid that is not a
/// wall.
pub open spec fn enterable(tiles: Seq<TileType>, p: Point) -> bool {
    spec_in_bounds(p) && spec_walkable(tiles, spec_map_idx(p.x as int, p.y as int))
}

/// Whether a move takes place: the mover is present, stands somewhere, and
/// may step onto its destination.
pub open spec fn can_move(es: Slots, tiles: Seq<TileType>, m: WantsToMove) -> bool {
    alive(es, m.entity) && es[m.entity.0 as int]->0.position is Some && enterable(
        tiles,
        m.destination,
    )
}

/// The slots after one move: the mover stands at its destination, and its
/// view, if it has one, is stale. A move that cannot take place changes
/// nothing.
pub open spec fn moved(es: Slots, tiles: Seq<TileType>, m: WantsToMove) -> Slots {
    if can_move(es, tiles, m) {
        let c = es[m.entity.0 as int]->0;
        es.update(
            m.entity.0 as int,
            Some(
                Components {
                    position: Some(m.destination),
                    fov_dirty: if c.fov_dirty is Some {
                        Some(true)
                    } else {
                        None
                    },
                    ..c
                },
            ),
        )
    } else {
        es
    }
}

/// The slots after all of `moves` were resolved in order.
pub open spec fn movement_outcome(es: Slots, tiles: Seq<TileType>, moves: Seq<WantsToMove>) -> Slots
    decreases moves.len(),
{
    if moves.len() == 0 {
        es
    } else {
        moved(movement_outcome(es, tiles, moves.drop_last()), tiles, moves.last())
    }
}

fn apply_move(world: &mut World, map: &GridMap, m: WantsToMove)
    requires
        map.wf(),
    ensures
        final(world).entities@ == moved(old(world).entities@, map.tiles@, m),
        final(world).moves == old(world).moves,
        final(world).attacks == old(world).attacks,
        final(world).activations == old(world).activations,
{
    if map.can_enter_tile(m.destination) && m.entity.0 < world.entities.len() {
        if let Some(c) = &mut world.entities[m.entity.0] {
            if c.position.is_some() {
                c.position = Some(m.destination);
                if c.fov_dirty.is_some() {
                    c.fov_dirty = Some(true);
                }
            }
        }
    }
}

/// Resolves every queued move, in queue order, and empties the queue.
///
/// A mover steps onto its destination when that is a tile of the grid and
/// not a wall; its view is then stale. Any other move has no effect.
pub fn movement(world: &mut World, map: &GridMap)
    requires
        map.wf(),
    ensures
        final(world).entities@ == movement_outcome(
            old(world).entities@,
            map.tiles@,
            old(world).moves@,
        ),
        final(world).entities@.len() == old(world).entities@.len(),
        final(world).moves@.len() == 0,
        final(world).attacks == old(world).attacks,
        final(world).activations == old(world).activations,
{
    let ghost es0 = world.entities@;
    let ghost moves = world.moves@;
    let mut k: usize = 0;
    while k < world.moves.len()
        invariant
            k <= moves.len(),
            map.wf(),
            world.moves@ == moves,
            world.entities@ == movement_outcome(es0, map.tiles@, moves.take(k as int)),
            world.attacks == old(world).attacks,
            world.activations == old(world).activations,
        decreases moves.len() - k,
    {
        let m = world.moves[k];
        proof {
            assert(moves.take(k + 1).drop_last() == moves.take(k as int));
            assert(moves.take(k + 1).last() == m);
        }
        apply_move(world, map, m);
        k += 1;
    }
    proof {
        assert(moves.take(k as int) == moves);
        lemma_movement_keeps_entities(es0, map.tiles@, moves, Entity(0));
    }
    world.moves.clear();
}

/// Movement removes nobody and adds nobody.
pub proof fn lemma_movement_keeps_entities(
    es: Slots,
    tiles: Seq<TileType>,
    moves: Seq<WantsToMove>,
    e: Entity,
)
    ensures
        movement_outcome(es, tiles, moves).len() == es.len(),
        alive(movement_outcome(es, tiles, moves), e) == alive(es, e),
    decreases moves.len(),
{
    if moves.len() > 0 {
        lemma_movement_keeps_entities(es, tiles, moves.drop_last(), e);
    }
}

} // verus!
