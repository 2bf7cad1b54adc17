//! The end of a turn: which phase comes next.

use vstd::prelude::*;
use crate::geometry::Point;
use crate::map::{spec_in_bounds, spec_map_idx, GridMap, TileType};
use crate::turn_state::TurnState;
use crate::world::{first_player, lemma_first_player_is_first, Slots, World};

verus! {

/// The phase that follows `current` when nothing special happened.
pub open spec fn spec_next_phase(current: TurnState) -> TurnState {
    match current {
        TurnState::PlayerTurn => TurnState::MonsterTurn,
        TurnState::MonsterTurn => TurnState::AwaitingInput,
        other => other,
    }
}

/// Whether slot `i` holds the amulet lying at `pos`: present, marked as the
/// amulet, carried by nobody.
pub open spec fn amulet_lies_at(es: Slots, pos: Point, i: int) -> bool {
    &&& 0 <= i < es.len()
    &&& es[i] matches Some(c)
    &&& c.amulet
    &&& c.carried is None
    &&& c.position == Some(pos)
}

/// The win condition: the amulet lies where the player stands.
pub open spec fn on_amulet(es: Slots, pos: Point) -> bool {
    exists|i: int| amulet_lies_at(es, pos, i)
}

/// The player stands on an exit tile of the grid.
pub open spec fn on_exit(tiles: Seq<TileType>, pos: Point) -> bool {
    spec_in_bounds(pos) && tiles[spec_map_idx(pos.x as int, pos.y as int)] == TileType::Exit
}

/// The phase after `current`. While input is awaited nothing changes. Else
/// the phases follow each other, unless the player, having health and a
/// position, stands on an exit (the next level), stands on the amulet
/// (victory), or has health below one (game over), in that order of
/// precedence.
pub open spec fn turn_after(current: TurnState, es: Slots, tiles: Seq<TileType>) -> TurnState {
    if current == TurnState::AwaitingInput {
        current
    } else {
        match first_player(es, es.len() as int) {
            Some(p) => {
                let c = es[p.0 as int]->0;
                if c.health is Some && c.position is Some {
                    if on_exit(tiles, c.position->0) {
                        TurnState::NextLevel
                    } else if on_amulet(es, c.position->0) {
                        TurnState::Victory
                    } else if c.health->0.current < 1 {
                        TurnState::GameOver
                    } else {
                        spec_next_phase(current)
                    }
                } else {
                    spec_next_phase(current)
                }
            },
            None => spec_next_phase(current),
        }
    }
}

pub fn next_phase(current: TurnState) -> (next: TurnState)
    ensures
        next == spec_next_phase(current),
{
    match current {
        TurnState::PlayerTurn => TurnState::MonsterTurn,
        TurnState::MonsterTurn => TurnState::AwaitingInput,
        other => other,
    }
}

/// Whether the amulet lies at `pos`.
pub fn amulet_at(world: &World, pos: Point) -> (b: bool)
    ensures
        b == on_amulet(world.entities@, pos),
{
    let mut i: usize = 0;
    while i < world.entities.len()
        invariant
            i <= world.entities@.len(),
            forall|j: int| 0 <= j < i ==> !amulet_lies_at(world.entities@, pos, j),
        decreases world.entities@.len() - i,
    {
        if let Some(c) = &world.entities[i] {
            if c.amulet && c.carried.is_none() {
                if let Some(p) = c.position {
                    if p == pos {
                        assert(amulet_lies_at(world.entities@, pos, i as int));
                        return true;
                    }
                }
            }
        }
        i += 1;
    }
    false
}

/// Ends the turn: sets the phase that comes next.
pub fn end_turn(world: &World, map: &GridMap, turn_state: &mut TurnState)
    requires
        map.wf(),
    ensures
        *final(turn_state) == turn_after(*old(turn_state), world.entities@, map.tiles@),
{
    let current = *turn_state;
    if current == TurnState::AwaitingInput {
        return ;
    }
    let mut new_state = next_phase(current);
    if let Some(p) = world.player() {
        proof {
            lemma_first_player_is_first(world.entities@, world.entities@.len() as int);
        }
        if let Some(c) = world.get(p) {
            if let (Some(hp), Some(pos)) = (c.health, c.position) {
                if hp.current < 1 {
                    new_state = TurnState::GameOver;
                }
                if amulet_at(world, pos) {
                    new_state = TurnState::Victory;
                }
                if let Some(idx) = map.try_idx(pos) {
                    if map.tiles[idx] == TileType::Exit {
                        new_state = TurnState::NextLevel;
                    }
                }
            }
        }
    }
    *turn_state = new_state;
}

} // verus!
