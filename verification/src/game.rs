//! The simulation as a whole: the world, the map and the turn phase, from a
//! fresh game through each tick to the descent to the next level.

use vstd::prelude::*;
use bracket_lib::prelude::RandomNumberGenerator;
use crate::components::{Components, Entity, Player};
use crate::geometry::Point;
use crate::map::{spec_in_bounds, GridMap, TileType, NUM_TILES};
use crate::map_builder::rooms::later_centers;
use crate::map_builder::themes::Theme;
use crate::map_builder::{built, is_level, no_exit, tile_of, MapBuilder};
use crate::spawner::{
    amulet_components, named, player_components, populated, spawn_amulet_of_yala, spawn_entities,
    spawn_player,
};
use crate::systems::combat::{combat, combat_outcome};
use crate::systems::end_turn::{end_turn, turn_after};
use crate::systems::movement::{movement, movement_outcome};
use crate::systems::player_input::{input_delta, player_input, player_moves};
use crate::systems::use_item::{any_reveals, item_outcome, use_item};
use crate::turn_state::{InputKey, TurnState};
use crate::world::{first_player, lemma_first_player_is_first, Slots, World};

verus! {

/// The dungeon level on which the amulet lies in place of an exit, counted
/// from zero.
pub const AMULET_LEVEL: u32 = 2;

/// Everything the simulation holds between ticks.
pub struct State {
    pub ecs: World,
    pub map: GridMap,
    pub turn_state: TurnState,
    pub themes: Theme,
}

/// The level counter after one more descent; it stops at the top of its
/// range.
pub open spec fn level_up(level: u32) -> u32 {
    if level < u32::MAX {
        (level + 1) as u32
    } else {
        level
    }
}

/// Whether slot `i` survives a descent: it holds the player `p` or something
/// that `p` carries.
pub open spec fn survives(es: Slots, p: Option<Entity>, i: int) -> bool {
    &&& 0 <= i < es.len()
    &&& es[i] is Some
    &&& p matches Some(e)
    &&& (e.0 == i || es[i]->0.carried == Some(e))
}

/// The attributes of a survivor after the descent: its view is stale, and a
/// player that stands somewhere now stands at `start`, one level deeper.
pub open spec fn descended_components(c: Components, start: Point) -> Components {
    Components {
        fov_dirty: if c.fov_dirty is Some {
            Some(true)
        } else {
            None
        },
        player: if c.player is Some && c.position is Some {
            Some(Player { map_level: level_up(c.player->0.map_level) })
        } else {
            c.player
        },
        position: if c.player is Some && c.position is Some {
            Some(start)
        } else {
            c.position
        },
        ..c
    }
}

/// The slots after the descent, before anything is spawned: the survivors
/// as they are after it, every other slot empty.
pub open spec fn descended(es: Slots, start: Point) -> Slots {
    Seq::new(
        es.len(),
        |i: int|
            if survives(es, first_player(es, es.len() as int), i) {
                Some(descended_components(es[i]->0, start))
            } else {
                None
            },
    )
}

/// The level that the descent leads to: one past the player's, or zero when
/// there is no player that stands somewhere.
pub open spec fn level_reached(es: Slots) -> u32 {
    match first_player(es, es.len() as int) {
        Some(e) => {
            let c = es[e.0 as int]->0;
            if c.position is Some {
                level_up(c.player->0.map_level)
            } else {
                0
            }
        },
        None => 0,
    }
}

/// The spots at which a fresh game spawns monsters and items: the level's
/// spawn points, then the middle of every room but the first.
pub open spec fn opening_spots(mb: MapBuilder) -> Seq<Point> {
    mb.monster_spawns@ + later_centers(mb.rooms@)
}

/// The tiles of `mb` with an exit at its farthest point.
pub open spec fn with_exit(mb: MapBuilder) -> Seq<TileType> {
    if spec_in_bounds(mb.amulet_start) {
        mb.map.tiles@.update(tile_of(mb.amulet_start), TileType::Exit)
    } else {
        mb.map.tiles@
    }
}

/// Tile `e` is an exit and no other tile is.
pub open spec fn exit_only_at(tiles: Seq<TileType>, e: int) -> bool {
    &&& 0 <= e < tiles.len()
    &&& forall|i: int| 0 <= i < tiles.len() ==> ((#[trigger] tiles[i] == TileType::Exit) <==> i == e)
}

/// Exactly one tile is an exit.
pub open spec fn one_exit(tiles: Seq<TileType>) -> bool {
    exists|e: int| #[trigger] exit_only_at(tiles, e)
}

/// What the player asks for on the screen that ends a game.
#[derive(Clone, Copy, Debug, PartialEq, Eq, Structural)]
pub enum EndChoice {
    Restart,
    Quit,
    Stay,
}

/// The first number key restarts, the second quits, anything else waits.
pub open spec fn spec_end_choice(key: Option<InputKey>) -> EndChoice {
    match key {
        Some(InputKey::Key1) => EndChoice::Restart,
        Some(InputKey::Key2) => EndChoice::Quit,
        _ => EndChoice::Stay,
    }
}

pub fn end_choice(key: Option<InputKey>) -> (c: EndChoice)
    ensures
        c == spec_end_choice(key),
{
    match key {
        Some(InputKey::Key1) => EndChoice::Restart,
        Some(InputKey::Key2) => EndChoice::Quit,
        _ => EndChoice::Stay,
    }
}

impl State {
    /// No intent is queued.
    pub open spec fn idle(&self) -> bool {
        &&& self.ecs.moves@.len() == 0
        &&& self.ecs.attacks@.len() == 0
        &&& self.ecs.activations@.len() == 0
    }

    /// This is a fresh game on the level `mb`: input is awaited; the map is
    /// that of `mb` with an exit at the farthest point; the player, at its
    /// start, is the first entity, followed by one spawn for each opening
    /// spot.
    pub open spec fn starts_on(&self, mb: MapBuilder) -> bool {
        &&& self.turn_state == TurnState::AwaitingInput
        &&& self.map.wf()
        &&& self.map.tiles@ == with_exit(mb)
        &&& self.map.revealed_tiles == mb.map.revealed_tiles
        &&& self.themes == mb.themes
        &&& self.idle()
        &&& populated(
            seq![Some(player_components(mb.player_start))],
            self.ecs.entities@,
            opening_spots(mb),
        )
    }

    /// This is `before` after its descent to the level `mb`: input is
    /// awaited; only the player and what it carries are left of the old
    /// entities; on the amulet level the amulet lies at the farthest point
    /// of `mb`, on any other an exit is there; then follows one spawn for
    /// each spawn point of `mb`.
    pub open spec fn descended_from(&self, before: State, mb: MapBuilder) -> bool {
        let old_es = before.ecs.entities@;
        let kept = descended(old_es, mb.player_start);
        &&& self.turn_state == TurnState::AwaitingInput
        &&& self.map.wf()
        &&& self.map.revealed_tiles == mb.map.revealed_tiles
        &&& self.themes == mb.themes
        &&& self.idle()
        &&& self.ecs.entities@.take(kept.len() as int) == kept
        &&& if level_reached(old_es) == AMULET_LEVEL {
            &&& self.map.tiles == mb.map.tiles
            &&& self.ecs.entities@.len() > kept.len()
            &&& self.ecs.entities@[kept.len() as int] matches Some(c) && named(
                c,
                "Amulet of Yala"@,
                amulet_components(mb.amulet_start),
            )
            &&& populated(
                self.ecs.entities@.take(kept.len() as int + 1),
                self.ecs.entities@,
                mb.monster_spawns@,
            )
        } else {
            &&& self.map.tiles@ == with_exit(mb)
            &&& populated(kept, self.ecs.entities@, mb.monster_spawns@)
        }
    }

    /// Nothing differs from `before`.
    pub open spec fn unchanged(&self, before: State) -> bool {
        &&& self.ecs == before.ecs
        &&& self.map == before.map
        &&& self.turn_state == before.turn_state
        &&& self.themes == before.themes
    }

    /// This is `before` after the tick in which input was awaited and `key`
    /// was pressed: nothing has changed unless the key names a direction,
    /// and then the player's move is queued and the player's turn begins.
    pub open spec fn after_input(&self, before: State, key: Option<InputKey>) -> bool {
        &&& self.map == before.map
        &&& self.themes == before.themes
        &&& self.ecs.entities == before.ecs.entities
        &&& self.ecs.attacks == before.ecs.attacks
        &&& self.ecs.activations == before.ecs.activations
        &&& input_delta(key).is_none() ==> self.unchanged(before)
        &&& input_delta(key) matches Some(delta) ==> self.turn_state == TurnState::PlayerTurn
            && self.ecs.moves@ == before.ecs.moves@ + player_moves(
            before.ecs.entities@,
            delta,
            before.ecs.entities@.len() as int,
        )
    }

    /// This is `before` after the player's turn: the queued moves, then the
    /// attacks, then the item activations were resolved, and the turn ended.
    pub open spec fn after_player_turn(&self, before: State) -> bool {
        let tiles = before.map.tiles@;
        let moved = movement_outcome(before.ecs.entities@, tiles, before.ecs.moves@);
        let fought = combat_outcome(moved, before.ecs.attacks@);
        let used = item_outcome(fought, before.ecs.activations@);
        &&& self.ecs.entities@ == used
        &&& self.idle()
        &&& self.themes == before.themes
        &&& self.map.tiles == before.map.tiles
        &&& self.map.revealed_tiles@.len() == before.map.revealed_tiles@.len()
        &&& any_reveals(fought, before.ecs.activations@) ==> forall|i: int|
            0 <= i < self.map.revealed_tiles@.len() ==> self.map.revealed_tiles@[i]
        &&& !any_reveals(fought, before.ecs.activations@) ==> self.map.revealed_tiles
            == before.map.revealed_tiles
        &&& self.turn_state == turn_after(before.turn_state, used, tiles)
    }

    /// This is `before` after the monsters' turn: the queued moves, then the
    /// attacks were resolved, and the turn ended.
    pub open spec fn after_monster_turn(&self, before: State) -> bool {
        let tiles = before.map.tiles@;
        let moved = movement_outcome(before.ecs.entities@, tiles, before.ecs.moves@);
        let fought = combat_outcome(moved, before.ecs.attacks@);
        &&& self.ecs.entities@ == fought
        &&& self.ecs.moves@.len() == 0
        &&& self.ecs.attacks@.len() == 0
        &&& self.ecs.activations == before.ecs.activations
        &&& self.themes == before.themes
        &&& self.map == before.map
        &&& self.turn_state == turn_after(before.turn_state, fought, tiles)
    }

    /// Starts a fresh game on the level `mb`.
    pub fn from_level(mb: MapBuilder, rand: &mut RandomNumberGenerator) -> (state: State)
        requires
            mb.map.wf(),
        ensures
            state.starts_on(mb),
    {
        let mut ecs = World::new();
        spawn_player(&mut ecs, mb.player_start);
        assert(ecs.entities@ == seq![Some(player_components(mb.player_start))]);
        let mut spots: Vec<Point> = Vec::new();
        let mut k: usize = 0;
        while k < mb.monster_spawns.len()
            invariant
                k <= mb.monster_spawns@.len(),
                spots@ == mb.monster_spawns@.take(k as int),
            decreases mb.monster_spawns@.len() - k,
        {
            spots.push(mb.monster_spawns[k]);
            assert(spots@ == mb.monster_spawns@.take(k + 1));
            k += 1;
        }
        assert(mb.monster_spawns@.take(k as int) == mb.monster_spawns@);
        if mb.rooms.len() > 0 {
            let mut r: usize = 1;
            assert(later_centers(mb.rooms@).take(0) == Seq::<Point>::empty());
            assert(mb.monster_spawns@ + Seq::<Point>::empty() == mb.monster_spawns@);
            while r < mb.rooms.len()
                invariant
                    1 <= r <= mb.rooms@.len(),
                    spots@ == mb.monster_spawns@ + later_centers(mb.rooms@).take(r - 1),
                decreases mb.rooms@.len() - r,
            {
                spots.push(mb.rooms[r].center());
                assert(spots@ == mb.monster_spawns@ + later_centers(mb.rooms@).take(r as int));
                r += 1;
            }
            assert(later_centers(mb.rooms@).take(r - 1) == later_centers(mb.rooms@));
        } else {
            assert(mb.monster_spawns@ + later_centers(mb.rooms@) == mb.monster_spawns@);
        }
        assert(spots@ == opening_spots(mb));
        spawn_entities(&mut ecs, rand, &spots);
        let amulet_start = mb.amulet_start;
        let mut map = mb.map;
        map.set_tile(amulet_start, TileType::Exit);
        State { ecs, map, turn_state: TurnState::AwaitingInput, themes: mb.themes }
    }

    /// Starts a fresh game on a freshly built level.
    pub fn new(rand: &mut RandomNumberGenerator) -> (state: State)
        ensures
            exists|mb: MapBuilder| built(mb) && #[trigger] state.starts_on(mb),
            one_exit(state.map.tiles@),
            state.map.unseen(),
    {
        let mb = MapBuilder::new(rand);
        let ghost level = mb;
        let state = State::from_level(mb, rand);
        proof {
            assert(built(level) && state.starts_on(level));
            lemma_exit_at_farthest_only(level);
        }
        state
    }

    /// Discards the game and starts a fresh one.
    pub fn reset_game_state(&mut self, rand: &mut RandomNumberGenerator)
        ensures
            exists|mb: MapBuilder| built(mb) && #[trigger] final(self).starts_on(mb),
            one_exit(final(self).map.tiles@),
            final(self).map.unseen(),
    {
        *self = State::new(rand);
    }

    /// Removes every entity but the player and what it carries, marks the
    /// views of those left as stale, and moves the player to `start`, one
    /// level deeper. All queued intents are dropped. Returns the level
    /// reached.
    pub fn descend(&mut self, start: Point) -> (level: u32)
        ensures
            level == level_reached(old(self).ecs.entities@),
            final(self).ecs.entities@ == descended(old(self).ecs.entities@, start),
            final(self).idle(),
            final(self).map == old(self).map,
            final(self).turn_state == old(self).turn_state,
            final(self).themes == old(self).themes,
    {
        let player = self.ecs.player();
        let ghost es0 = self.ecs.entities@;
        proof {
            lemma_first_player_is_first(es0, es0.len() as int);
        }
        let mut level: u32 = 0;
        let mut i: usize = 0;
        while i < self.ecs.entities.len()
            invariant
                i <= es0.len(),
                self.ecs.entities@.len() == es0.len(),
                player == first_player(es0, es0.len() as int),
                player matches Some(e) ==> e.0 < es0.len() && es0[e.0 as int] is Some,
                forall|j: int|
                    0 <= j < es0.len() ==> #[trigger] self.ecs.entities@[j] == if j < i {
                        descended(es0, start)[j]
                    } else {
                        es0[j]
                    },
                self.map == old(self).map,
                self.turn_state == old(self).turn_state,
                self.themes == old(self).themes,
            decreases es0.len() - i,
        {
            let keep = match (&self.ecs.entities[i], player) {
                (Some(c), Some(e)) => e.0 == i || (match c.carried {
                    Some(who) => who == e,
                    None => false,
                }),
                _ => false,
            };
            assert(keep == survives(es0, player, i as int));
            if keep {
                if let Some(c) = &mut self.ecs.entities[i] {
                    if c.fov_dirty.is_some() {
                        c.fov_dirty = Some(true);
                    }
                    if let (Some(pl), Some(_)) = (c.player, c.position) {
                        let deeper = if pl.map_level < u32::MAX {
                            pl.map_level + 1
                        } else {
                            pl.map_level
                        };
                        c.player = Some(Player { map_level: deeper });
                        c.position = Some(start);
                    }
                }
            } else {
                self.ecs.entities[i] = None;
            }
            i += 1;
        }
        assert(self.ecs.entities@ == descended(es0, start));
        if let Some(e) = player {
            if let Some(c) = self.ecs.get(e) {
                if let (Some(pl), Some(_)) = (c.player, c.position) {
                    level = pl.map_level;
                }
            }
        }
        self.ecs.moves.clear();
        self.ecs.attacks.clear();
        self.ecs.activations.clear();
        level
    }

    /// Descends to the level `mb`.
    pub fn enter_level(&mut self, mb: MapBuilder, rand: &mut RandomNumberGenerator)
        requires
            mb.map.wf(),
        ensures
            final(self).descended_from(*old(self), mb),
    {
        let ghost es0 = self.ecs.entities@;
        let map_level = self.descend(mb.player_start);
        let ghost kept = self.ecs.entities@;
        let amulet_start = mb.amulet_start;
        let monster_spawns = mb.monster_spawns;
        let mut map = mb.map;
        if map_level == AMULET_LEVEL {
            spawn_amulet_of_yala(&mut self.ecs, amulet_start);
        } else {
            map.set_tile(amulet_start, TileType::Exit);
        }
        let ghost mid = self.ecs.entities@;
        spawn_entities(&mut self.ecs, rand, &monster_spawns);
        self.map = map;
        self.themes = mb.themes;
        self.turn_state = TurnState::AwaitingInput;
        proof {
            let now = self.ecs.entities@;
            assert(kept == descended(es0, mb.player_start));
            assert(now.take(mid.len() as int) == mid);
            assert(now.take(kept.len() as int) == mid.take(kept.len() as int));
            assert(mid.take(kept.len() as int) == kept);
            if map_level == AMULET_LEVEL {
                assert(mid.len() == kept.len() + 1);
                assert(now[kept.len() as int] == mid[kept.len() as int]);
                assert(now.take(kept.len() as int + 1) == mid);
            } else {
                assert(mid == kept);
            }
            assert(self.idle());
        }
    }

    /// Runs the systems of the player's turn once: movement, combat, item
    /// use, and the end of the turn.
    pub fn run_player_turn(&mut self)
        requires
            old(self).map.wf(),
        ensures
            final(self).map.wf(),
            final(self).after_player_turn(*old(self)),
    {
        movement(&mut self.ecs, &self.map);
        combat(&mut self.ecs);
        use_item(&mut self.ecs, &mut self.map);
        end_turn(&self.ecs, &self.map, &mut self.turn_state);
    }

    /// Runs the systems of the monsters' turn once: movement, combat, and
    /// the end of the turn.
    pub fn run_monster_turn(&mut self)
        requires
            old(self).map.wf(),
        ensures
            final(self).map.wf(),
            final(self).after_monster_turn(*old(self)),
    {
        movement(&mut self.ecs, &self.map);
        combat(&mut self.ecs);
        end_turn(&self.ecs, &self.map, &mut self.turn_state);
    }

    /// Advances the simulation by one tick: the systems of the active phase
    /// run once. On a screen that ends a game the key decides: restart,
    /// quit, or wait. Returns whether the player asked to quit.
    pub fn tick(&mut self, key: Option<InputKey>, rand: &mut RandomNumberGenerator) -> (quit: bool)
        requires
            old(self).map.wf(),
        ensures
            final(self).map.wf(),
            quit == ((old(self).turn_state == TurnState::GameOver || old(self).turn_state
                == TurnState::Victory) && spec_end_choice(key) == EndChoice::Quit),
            match old(self).turn_state {
                TurnState::AwaitingInput => final(self).after_input(*old(self), key),
                TurnState::PlayerTurn => final(self).after_player_turn(*old(self)),
                TurnState::MonsterTurn => final(self).after_monster_turn(*old(self)),
                TurnState::NextLevel => exists|mb: MapBuilder|
                    built(mb) && #[trigger] final(self).descended_from(*old(self), mb),
                _ => if spec_end_choice(key) == EndChoice::Restart {
                    exists|mb: MapBuilder| built(mb) && #[trigger] final(self).starts_on(mb)
                } else {
                    final(self).unchanged(*old(self))
                },
            },
    {
        match self.turn_state {
            TurnState::AwaitingInput => {
                player_input(&mut self.ecs, key, &mut self.turn_state);
                false
            },
            TurnState::PlayerTurn => {
                self.run_player_turn();
                false
            },
            TurnState::MonsterTurn => {
                self.run_monster_turn();
                false
            },
            TurnState::NextLevel => {
                self.advanced_level(rand);
                false
            },
            TurnState::GameOver | TurnState::Victory => {
                match end_choice(key) {
                    EndChoice::Restart => {
                        self.reset_game_state(rand);
                        false
                    },
                    EndChoice::Quit => true,
                    EndChoice::Stay => false,
                }
            },
        }
    }

    /// Descends to a freshly built level.
    pub fn advanced_level(&mut self, rand: &mut RandomNumberGenerator)
        ensures
            exists|mb: MapBuilder| built(mb) && #[trigger] final(self).descended_from(*old(self), mb),
            level_reached(old(self).ecs.entities@) == AMULET_LEVEL ==> no_exit(final(self).map.tiles@),
            level_reached(old(self).ecs.entities@) != AMULET_LEVEL ==> one_exit(
                final(self).map.tiles@,
            ),
            final(self).map.unseen(),
    {
        let mb = MapBuilder::new(rand);
        let ghost level = mb;
        self.enter_level(mb, rand);
        proof {
            assert(built(level) && self.descended_from(*old(self), level));
            lemma_exit_at_farthest_only(level);
        }
    }
}

/// After a descent, of the entities that were there before exactly the
/// player and what the player carried are left.
pub proof fn lemma_descent_keeps_player_and_carried(es: Slots, start: Point, e: Entity)
    requires
        e.0 < es.len(),
    ensures
        descended(es, start).len() == es.len(),
        crate::world::alive(descended(es, start), e) <==> crate::world::alive(es, e) && (first_player(
            es,
            es.len() as int,
        ) matches Some(p) && (p == e || es[e.0 as int]->0.carried == Some(p))),
{
}

/// A finished level given its exit has the exit at the farthest point and
/// nowhere else.
pub proof fn lemma_exit_at_farthest_only(mb: MapBuilder)
    requires
        is_level(mb),
    ensures
        exit_only_at(with_exit(mb), tile_of(mb.amulet_start)),
        one_exit(with_exit(mb)),
{
    let e = tile_of(mb.amulet_start);
    assert forall|i: int| 0 <= i < NUM_TILES implies ((#[trigger] with_exit(mb)[i] == TileType::Exit)
        <==> i == e) by {
        assert(mb.map.tiles@[i] != TileType::Exit);
    }
    assert(exit_only_at(with_exit(mb), e));
}

} // verus!
