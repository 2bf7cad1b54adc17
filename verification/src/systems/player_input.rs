//! Turns a key press into a move intent of the player.

use vstd::prelude::*;
use crate::components::{Entity, WantsToMove};
use crate::geometry::Point;
use crate::turn_state::{InputKey, TurnState};
use crate::world::{is_player, Slots, World};

verus! {

/// The step a key asks for. Keys that name no direction ask for none.
pub open spec fn spec_key_delta(key: InputKey) -> Option<Point> {
    match key {
        InputKey::Left => Some(Point { x: -1i32, y: 0 }),
        InputKey::Right => Some(Point { x: 1, y: 0 }),
        InputKey::Up => Some(Point { x: 0, y: -1i32 }),
        InputKey::Down => Some(Point { x: 0, y: 1 }),
        _ => None,
    }
}

/// The step that the input of a tick asks for: that of the key pressed, if
/// one was pressed and it names a direction.
pub open spec fn input_delta(key: Option<InputKey>) -> Option<Point> {
    match key {
        Some(k) => spec_key_delta(k),
        None => None,
    }
}

pub fn key_delta(key: InputKey) -> (d: Option<Point>)
    ensures
        d == spec_key_delta(key),
{
    match key {
        InputKey::Left => Some(Point::new(-1, 0)),
        InputKey::Right => Some(Point::new(1, 0)),
        InputKey::Up => Some(Point::new(0, -1)),
        InputKey::Down => Some(Point::new(0, 1)),
        _ => None,
    }
}

/// Where a step of `delta` from `pos` leads. A step that would leave the
/// `i32` range leads nowhere: the destination is `pos` itself.
pub open spec fn step_from(pos: Point, delta: Point) -> Point {
    if pos.can_offset(delta) {
        pos.offset(delta)
    } else {
        pos
    }
}

/// Whether slot `i` holds a player that stands somewhere.
pub open spec fn placed_player(es: Slots, i: int) -> bool {
    0 <= i < es.len() && is_player(es, Entity(i as usize)) && es[i]->0.position is Some
}

/// One move intent for every placed player in the slots below `n`, in slot
/// order.
pub open spec fn player_moves(es: Slots, delta: Point, n: int) -> Seq<WantsToMove>
    decreases n,
{
    if n <= 0 {
        Seq::empty()
    } else if placed_player(es, n - 1) {
        player_moves(es, delta, n - 1).push(
            WantsToMove {
                entity: Entity((n - 1) as usize),
                destination: step_from(es[n - 1]->0.position->0, delta),
            },
        )
    } else {
        player_moves(es, delta, n - 1)
    }
}

/// Handles the key pressed this tick, if any.
///
/// Without a key, or with a key that names no direction, nothing changes.
/// With a direction key, a move intent is queued for the player, one step
/// in the key's direction, and the player's turn begins.
pub fn player_input(world: &mut World, key: Option<InputKey>, turn_state: &mut TurnState)
    ensures
        final(world).entities == old(world).entities,
        final(world).attacks == old(world).attacks,
        final(world).activations == old(world).activations,
        input_delta(key).is_none() ==> final(world).moves == old(world).moves && *final(turn_state)
            == *old(turn_state),
        input_delta(key) matches Some(delta) ==> *final(turn_state) == TurnState::PlayerTurn
            && final(world).moves@ == old(world).moves@ + player_moves(
            old(world).entities@,
            delta,
            old(world).entities@.len() as int,
        ),
{
    let step = match key {
        Some(k) => key_delta(k),
        None => None,
    };
    if let Some(delta) = step {
        let mut i: usize = 0;
        while i < world.entities.len()
            invariant
                i <= world.entities@.len(),
                world.entities == old(world).entities,
                world.attacks == old(world).attacks,
                world.activations == old(world).activations,
                world.moves@ == old(world).moves@ + player_moves(world.entities@, delta, i as int),
            decreases world.entities@.len() - i,
        {
            let found: Option<Point> = match &world.entities[i] {
                Some(c) => if c.player.is_some() {
                    c.position
                } else {
                    None
                },
                None => None,
            };
            if let Some(pos) = found {
                let destination = match pos.checked_add(delta) {
                    Some(p) => p,
                    None => pos,
                };
                world.moves.push(WantsToMove { entity: Entity(i), destination });
            }
            i += 1;
        }
        *turn_state = TurnState::PlayerTurn;
    }
}

/// With a single placed player in the world, a direction key queues exactly
/// one move intent, and it is the player's.
pub proof fn lemma_one_player_one_move(es: Slots, delta: Point, p: Entity, n: int)
    requires
        is_player(es, p),
        es[p.0 as int]->0.position is Some,
        forall|o: Entity| o != p ==> !#[trigger] is_player(es, o),
        0 <= n <= es.len() <= usize::MAX,
    ensures
        player_moves(es, delta, n) == if p.0 < n {
            seq![
                WantsToMove {
                    entity: p,
                    destination: step_from(es[p.0 as int]->0.position->0, delta),
                },
            ]
        } else {
            Seq::<WantsToMove>::empty()
        },
    decreases n,
{
    if n > 0 {
        lemma_one_player_one_move(es, delta, p, n - 1);
        if n - 1 != p.0 {
            assert(!is_player(es, Entity((n - 1) as usize)));
        } else {
            assert(Entity((n - 1) as usize) == p);
        }
    }
}

} // verus!
