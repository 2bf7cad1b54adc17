//! The attributes an entity may carry, and the intents queued between
//! phases.

use vstd::prelude::*;
use crate::geometry::Point;

verus! {

/// A stable handle naming one slot of the world's entity arena.
#[derive(Clone, Copy, Debug, PartialEq, Eq, Structural, Hash)]
pub struct Entity(pub usize);

/// Marks the player and counts the levels already descended.
#[derive(Clone, Copy, Debug, PartialEq, Eq, Structural)]
pub struct Player {
    pub map_level: u32,
}

#[derive(Clone, Copy, Debug, PartialEq, Eq, Structural)]
pub struct Health {
    pub current: i32,
    pub max: i32,
}

/// Every attribute of one entity. Attributes attach and detach
/// independently: an absent one is `None` or `false`.
#[derive(Clone, Debug)]
pub struct Components {
    pub player: Option<Player>,
    pub enemy: bool,
    pub item: bool,
    pub amulet: bool,
    pub position: Option<Point>,
    pub health: Option<Health>,
    pub damage: Option<i32>,
    pub name: Option<String>,
    /// The entity that carries this one, if any.
    pub carried: Option<Entity>,
    /// Health restored when this item is used.
    pub healing: Option<i32>,
    /// Using this item reveals the whole map.
    pub reveals_map: bool,
    /// `Some(true)` when the entity sees and its view must be recomputed.
    pub fov_dirty: Option<bool>,
}

impl Components {
    /// The entity with no attribute at all.
    pub open spec fn spec_blank() -> Components {
        Components {
            player: None,
            enemy: false,
            item: false,
            amulet: false,
            position: None,
            health: None,
            damage: None,
            name: None,
            carried: None,
            healing: None,
            reveals_map: false,
            fov_dirty: None,
        }
    }

    pub fn blank() -> (c: Components)
        ensures
            c == Components::spec_blank(),
    {
        Components {
            player: None,
            enemy: false,
            item: false,
            amulet: false,
            position: None,
            health: None,
            damage: None,
            name: None,
            carried: None,
            healing: None,
            reveals_map: false,
            fov_dirty: None,
        }
    }
}

/// A request to move `entity` to `destination`.
#[derive(Clone, Copy, Debug, PartialEq, Eq, Structural)]
pub struct WantsToMove {
    pub entity: Entity,
    pub destination: Point,
}

/// A request for `attacker` to strike `victim`.
#[derive(Clone, Copy, Debug, PartialEq, Eq, Structural)]
pub struct WantsToAttack {
    pub attacker: Entity,
    pub victim: Entity,
}

/// A request for `used_by` to consume `item`.
#[derive(Clone, Copy, Debug, PartialEq, Eq, Structural)]
pub struct ActivateItem {
    pub used_by: Entity,
    pub item: Entity,
}

} // verus!
