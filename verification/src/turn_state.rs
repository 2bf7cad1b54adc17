//! The phase of the turn cycle.

use vstd::prelude::*;

verus! {

/// Which set of systems runs on the next tick.
#[derive(Clone, Copy, Debug, PartialEq, Eq, Structural)]
pub enum TurnState {
    AwaitingInput,
    PlayerTurn,
    MonsterTurn,
    GameOver,
    Victory,
    NextLevel,
}

/// A key press as far as the simulation tells keys apart.
#[derive(Clone, Copy, Debug, PartialEq, Eq, Structural)]
pub enum InputKey {
    Left,
    Right,
    Up,
    Down,
    Key1,
    Key2,
    Other,
}

} // verus!
