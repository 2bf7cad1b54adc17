use bracket_lib::prelude::RandomNumberGenerator;
use dungeoncrawl::components::{
    ActivateItem, Components, Entity, Health, Player, WantsToAttack, WantsToMove,
};
use dungeoncrawl::game::{end_choice, EndChoice, State, AMULET_LEVEL};
use dungeoncrawl::geometry::{Point, Rect};
use dungeoncrawl::map::{GridMap, TileType, NUM_TILES};
use dungeoncrawl::map_builder::empty::EmptyArchitect;
use dungeoncrawl::map_builder::themes::Theme;
use dungeoncrawl::map_builder::MapBuilder;
use dungeoncrawl::spawner::{
    spawn_amulet_of_yala, spawn_entities, spawn_entity, spawn_for_roll, spawn_player,
};
use dungeoncrawl::turn_state::{InputKey, TurnState};
use dungeoncrawl::world::World;

fn open_level() -> MapBuilder {
    let mut mb = EmptyArchitect {}.new();
    mb.monster_spawns = vec![Point::new(70, 40), Point::new(5, 5)];
    mb.themes = Theme::Swamp;
    mb
}

fn is_a_spawn(c: &Components, pos: Point) -> bool {
    let name = c.name.as_deref();
    let common = c.position == Some(pos) && c.player.is_none() && c.carried.is_none() && !c.amulet;
    let potion = c.item
        && !c.enemy
        && name == Some("Healing Potion")
        && c.healing == Some(6)
        && !c.reveals_map
        && c.damage.is_none()
        && c.health.is_none();
    let map = c.item
        && !c.enemy
        && name == Some("Dungeon Map")
        && c.reveals_map
        && c.healing.is_none()
        && c.damage.is_none()
        && c.health.is_none();
    let sword = c.item
        && !c.enemy
        && name == Some("Rusty Sword")
        && c.damage == Some(1)
        && c.healing.is_none()
        && !c.reveals_map
        && c.health.is_none();
    let goblin = c.enemy
        && !c.item
        && name == Some("Goblin")
        && c.health == Some(Health { current: 1, max: 1 })
        && c.damage == Some(1)
        && c.fov_dirty == Some(true);
    let orc = c.enemy
        && !c.item
        && name == Some("Orc")
        && c.health == Some(Health { current: 2, max: 2 })
        && c.damage == Some(1)
        && c.fov_dirty == Some(true);
    common && (potion || map || sword || goblin || orc)
}

#[test]
fn the_player_spawns_with_ten_health() {
    let mut world = World::new();
    let e = spawn_player(&mut world, Point::new(3, 4));
    assert_eq!(e, Entity(0));
    let c = world.get(e).unwrap();
    assert_eq!(c.player, Some(Player { map_level: 0 }));
    assert_eq!(c.position, Some(Point::new(3, 4)));
    assert_eq!(c.health, Some(Health { current: 10, max: 10 }));
    assert_eq!(c.damage, Some(1));
    assert_eq!(c.fov_dirty, Some(true));
    assert!(c.name.is_none() && c.carried.is_none() && !c.enemy && !c.item && !c.amulet);
}

#[test]
fn the_amulet_spawns_as_a_named_item() {
    let mut world = World::new();
    world.spawn(Components::blank());
    let e = spawn_amulet_of_yala(&mut world, Point::new(8, 9));
    assert_eq!(e, Entity(1));
    let c = world.get(e).unwrap();
    assert!(c.item && c.amulet && !c.enemy);
    assert_eq!(c.name.as_deref(), Some("Amulet of Yala"));
    assert_eq!(c.position, Some(Point::new(8, 9)));
    assert!(c.carried.is_none() && c.health.is_none());
}

#[test]
fn draws_decide_what_spawns() {
    let pos = Point::new(2, 2);
    let names = [
        (1, 1, "Healing Potion"),
        (2, 10, "Dungeon Map"),
        (3, 5, "Rusty Sword"),
        (4, 8, "Goblin"),
        (4, 9, "Orc"),
        (6, 10, "Orc"),
        (5, 1, "Goblin"),
    ];
    for (roll, monster_roll, name) in names {
        let mut world = World::new();
        let e = spawn_for_roll(&mut world, pos, roll, monster_roll);
        let c = world.get(e).unwrap();
        assert_eq!(c.name.as_deref(), Some(name));
        assert!(is_a_spawn(c, pos));
    }
}

#[test]
fn random_spawns_are_among_the_known_kinds() {
    let mut rng = RandomNumberGenerator::seeded(11);
    let mut world = World::new();
    let mut kinds = std::collections::BTreeSet::new();
    for n in 0..200 {
        let pos = Point::new(n % 80, n / 80);
        spawn_entity(&mut world, &mut rng, pos);
        let c = world.get(Entity(n as usize)).unwrap();
        assert!(is_a_spawn(c, pos));
        kinds.insert(c.name.clone().unwrap());
    }
    assert_eq!(world.entities.len(), 200);
    assert_eq!(kinds.len(), 5);
}

#[test]
fn one_entity_spawns_for_each_spot_in_order() {
    let mut rng = RandomNumberGenerator::seeded(2);
    let mut world = World::new();
    spawn_player(&mut world, Point::new(1, 1));
    let spots = vec![Point::new(4, 4), Point::new(5, 5), Point::new(4, 4)];
    spawn_entities(&mut world, &mut rng, &spots);
    assert_eq!(world.entities.len(), 4);
    assert!(world.get(Entity(0)).unwrap().player.is_some());
    for (k, spot) in spots.iter().enumerate() {
        assert!(is_a_spawn(world.get(Entity(k + 1)).unwrap(), *spot));
    }
}

#[test]
fn a_fresh_game_awaits_input_on_a_level_with_an_exit() {
    let mut rng = RandomNumberGenerator::seeded(5);
    let mut mb = open_level();
    mb.rooms = vec![
        Rect::with_size(1, 1, 4, 4),
        Rect::with_size(10, 10, 4, 4),
        Rect::with_size(20, 20, 6, 2),
    ];
    let tiles = mb.map.tiles.clone();
    let amulet = mb.amulet_start;
    let state = State::from_level(mb, &mut rng);
    assert_eq!(state.turn_state, TurnState::AwaitingInput);
    assert_eq!(state.themes, Theme::Swamp);
    let exit = state.map.point2d_to_index(amulet);
    for idx in 0..NUM_TILES {
        let want = if idx == exit { TileType::Exit } else { tiles[idx] };
        assert_eq!(state.map.tiles[idx], want);
    }
    assert!(state.map.revealed_tiles.iter().all(|r| !*r));
    assert!(state.ecs.moves.is_empty() && state.ecs.attacks.is_empty());
    assert!(state.ecs.activations.is_empty());
    assert_eq!(state.ecs.entities.len(), 5);
    let player = state.ecs.get(Entity(0)).unwrap();
    assert_eq!(player.position, Some(Point::new(40, 25)));
    assert_eq!(player.player, Some(Player { map_level: 0 }));
    let spots = [Point::new(70, 40), Point::new(5, 5), Point::new(12, 12), Point::new(23, 21)];
    for (k, spot) in spots.iter().enumerate() {
        assert!(is_a_spawn(state.ecs.get(Entity(k + 1)).unwrap(), *spot));
    }
}

#[test]
fn a_new_game_has_one_player_at_the_start_and_one_exit() {
    for seed in 0..5 {
        let mut rng = RandomNumberGenerator::seeded(seed);
        let state = State::new(&mut rng);
        assert_eq!(state.turn_state, TurnState::AwaitingInput);
        assert_eq!(state.ecs.player(), Some(Entity(0)));
        let players = state.ecs.entities.iter().flatten().filter(|c| c.player.is_some()).count();
        assert_eq!(players, 1);
        let exits = state.map.tiles.iter().filter(|t| **t == TileType::Exit).count();
        assert_eq!(exits, 1);
        assert!(state.map.revealed_tiles.iter().all(|r| !*r));
        let pos = state.ecs.get(Entity(0)).unwrap().position.unwrap();
        assert_eq!(state.map.tiles[state.map.point2d_to_index(pos)], TileType::Floor);
        assert!(state.ecs.entities.len() > 1);
        for c in state.ecs.entities.iter().skip(1) {
            let c = c.as_ref().unwrap();
            assert!(is_a_spawn(c, c.position.unwrap()));
        }
    }
}

fn game_on_level(level: u32) -> (State, Entity, Entity, Entity) {
    let mut rng = RandomNumberGenerator::seeded(1);
    let mut state = State::from_level(open_level(), &mut rng);
    let player = Entity(0);
    {
        let p = state.ecs.entities[0].as_mut().unwrap();
        p.player = Some(Player { map_level: level });
        p.fov_dirty = Some(false);
        p.health = Some(Health { current: 4, max: 10 });
    }
    let mut sword = Components::blank();
    sword.item = true;
    sword.damage = Some(2);
    sword.carried = Some(player);
    sword.name = Some("Shiny Sword".to_string());
    let sword = state.ecs.spawn(sword);
    let mut loot = Components::blank();
    loot.item = true;
    loot.carried = Some(Entity(1));
    let loot = state.ecs.spawn(loot);
    state.ecs.moves.push(WantsToMove { entity: player, destination: Point::new(1, 1) });
    state.ecs.attacks.push(WantsToAttack { attacker: player, victim: Entity(1) });
    state.ecs.activations.push(ActivateItem { used_by: player, item: sword });
    state.turn_state = TurnState::NextLevel;
    state.map.reveal_all();
    (state, player, sword, loot)
}

#[test]
fn descending_keeps_the_player_and_what_it_carries() {
    let (mut state, player, sword, loot) = game_on_level(0);
    let before = state.ecs.entities.len();
    let mut mb = open_level();
    mb.player_start = Point::new(7, 7);
    mb.amulet_start = Point::new(60, 30);
    mb.monster_spawns = vec![Point::new(70, 40), Point::new(5, 5), Point::new(6, 6)];
    mb.themes = Theme::Ice;
    let mut rng = RandomNumberGenerator::seeded(8);
    state.enter_level(mb, &mut rng);
    assert_eq!(state.turn_state, TurnState::AwaitingInput);
    assert_eq!(state.themes, Theme::Ice);
    assert!(state.ecs.moves.is_empty() && state.ecs.attacks.is_empty());
    assert!(state.ecs.activations.is_empty());
    assert!(state.map.revealed_tiles.iter().all(|r| !*r));
    for n in 0..before {
        let e = Entity(n);
        assert_eq!(state.ecs.is_alive(e), e == player || e == sword);
    }
    assert!(!state.ecs.is_alive(loot));
    let p = state.ecs.get(player).unwrap();
    assert_eq!(p.player, Some(Player { map_level: 1 }));
    assert_eq!(p.position, Some(Point::new(7, 7)));
    assert_eq!(p.fov_dirty, Some(true));
    assert_eq!(p.health, Some(Health { current: 4, max: 10 }));
    let s = state.ecs.get(sword).unwrap();
    assert_eq!(s.carried, Some(player));
    assert_eq!(s.name.as_deref(), Some("Shiny Sword"));
    assert_eq!(state.map.tiles[state.map.point2d_to_index(Point::new(60, 30))], TileType::Exit);
    assert_eq!(state.map.tiles.iter().filter(|t| **t == TileType::Exit).count(), 1);
    assert_eq!(state.ecs.entities.len(), before + 3);
    assert!(state.ecs.entities.iter().flatten().all(|c| !c.amulet));
    let spots = [Point::new(70, 40), Point::new(5, 5), Point::new(6, 6)];
    for (k, spot) in spots.iter().enumerate() {
        assert!(is_a_spawn(state.ecs.get(Entity(before + k)).unwrap(), *spot));
    }
}

#[test]
fn the_amulet_level_has_the_amulet_in_place_of_an_exit() {
    assert_eq!(AMULET_LEVEL, 2);
    let (mut state, player, sword, _) = game_on_level(1);
    let before = state.ecs.entities.len();
    let mut mb = open_level();
    mb.amulet_start = Point::new(60, 30);
    let tiles = mb.map.tiles.clone();
    let mut rng = RandomNumberGenerator::seeded(8);
    state.enter_level(mb, &mut rng);
    assert_eq!(state.map.tiles, tiles);
    assert!(state.map.tiles.iter().all(|t| *t != TileType::Exit));
    assert_eq!(state.ecs.get(player).unwrap().player, Some(Player { map_level: 2 }));
    let amulet = state.ecs.get(Entity(before)).unwrap();
    assert!(amulet.amulet && amulet.item);
    assert_eq!(amulet.position, Some(Point::new(60, 30)));
    assert_eq!(amulet.name.as_deref(), Some("Amulet of Yala"));
    assert_eq!(state.ecs.entities.len(), before + 3);
    assert!(is_a_spawn(state.ecs.get(Entity(before + 1)).unwrap(), Point::new(70, 40)));
    assert!(is_a_spawn(state.ecs.get(Entity(before + 2)).unwrap(), Point::new(5, 5)));
    let alive = (0..before).filter(|n| state.ecs.is_alive(Entity(*n))).count();
    assert_eq!(alive, 2);
    assert!(state.ecs.is_alive(sword));
}

#[test]
fn levels_past_the_amulet_have_exits_again() {
    let (mut state, player, _, _) = game_on_level(2);
    let mut rng = RandomNumberGenerator::seeded(8);
    state.enter_level(open_level(), &mut rng);
    assert_eq!(state.ecs.get(player).unwrap().player, Some(Player { map_level: 3 }));
    assert_eq!(state.map.tiles.iter().filter(|t| **t == TileType::Exit).count(), 1);
    assert!(state.ecs.entities.iter().flatten().all(|c| !c.amulet));
}

#[test]
fn a_descent_reports_the_level_reached() {
    let (mut state, player, _, _) = game_on_level(u32::MAX);
    assert_eq!(state.descend(Point::new(2, 2)), u32::MAX);
    assert_eq!(state.ecs.get(player).unwrap().player, Some(Player { map_level: u32::MAX }));
    let (mut state, _, _, _) = game_on_level(6);
    assert_eq!(state.descend(Point::new(2, 2)), 7);
    let mut empty = State::from_level(open_level(), &mut RandomNumberGenerator::seeded(1));
    empty.ecs.remove(Entity(0));
    assert_eq!(empty.descend(Point::new(2, 2)), 0);
    assert!(empty.ecs.entities.iter().all(|c| c.is_none()));
}

#[test]
fn advancing_builds_a_fresh_level() {
    for seed in 0..4 {
        let (mut state, player, sword, _) = game_on_level(1);
        let before = state.ecs.entities.len();
        let mut rng = RandomNumberGenerator::seeded(seed);
        state.advanced_level(&mut rng);
        assert_eq!(state.turn_state, TurnState::AwaitingInput);
        assert!(state.map.revealed_tiles.iter().all(|r| !*r));
        let alive: Vec<usize> = (0..before).filter(|n| state.ecs.is_alive(Entity(*n))).collect();
        assert_eq!(alive, vec![player.0, sword.0]);
        assert_eq!(state.ecs.entities.iter().flatten().filter(|c| c.amulet).count(), 1);
        assert!(state.map.tiles.iter().all(|t| *t != TileType::Exit));
        let amulet = state.ecs.get(Entity(before)).unwrap();
        assert!(amulet.amulet);
        let pos = state.ecs.get(player).unwrap().position.unwrap();
        assert_eq!(state.map.tiles[state.map.point2d_to_index(pos)], TileType::Floor);
    }
}

#[test]
fn advancing_to_an_ordinary_level_places_one_exit_at_the_farthest_point() {
    for seed in 0..4 {
        let (mut state, player, _, _) = game_on_level(4);
        let mut rng = RandomNumberGenerator::seeded(seed);
        state.advanced_level(&mut rng);
        assert_eq!(state.ecs.get(player).unwrap().player, Some(Player { map_level: 5 }));
        assert!(state.ecs.entities.iter().flatten().all(|c| !c.amulet));
        let exits: Vec<usize> =
            (0..NUM_TILES).filter(|i| state.map.tiles[*i] == TileType::Exit).collect();
        assert_eq!(exits.len(), 1);
        let pos = state.ecs.get(player).unwrap().position.unwrap();
        let start = state.map.point2d_to_index(pos);
        let dist = dungeoncrawl::distance::distance_field(&state.map, &vec![start], 1024);
        let far = dist.iter().filter(|d| **d != u32::MAX).max().unwrap();
        assert_eq!(dist[exits[0]], *far);
    }
}

#[test]
fn end_screens_offer_restart_and_quit() {
    assert_eq!(end_choice(Some(InputKey::Key1)), EndChoice::Restart);
    assert_eq!(end_choice(Some(InputKey::Key2)), EndChoice::Quit);
    assert_eq!(end_choice(Some(InputKey::Left)), EndChoice::Stay);
    assert_eq!(end_choice(Some(InputKey::Other)), EndChoice::Stay);
    assert_eq!(end_choice(None), EndChoice::Stay);
}

#[test]
fn ticks_run_the_active_phase_once() {
    let mut rng = RandomNumberGenerator::seeded(4);
    let mut state = State::from_level(open_level(), &mut rng);
    let entities = state.ecs.entities.len();
    assert!(!state.tick(None, &mut rng));
    assert_eq!(state.turn_state, TurnState::AwaitingInput);
    assert!(state.ecs.moves.is_empty());
    for key in [InputKey::Other, InputKey::Key1, InputKey::Key2] {
        assert!(!state.tick(Some(key), &mut rng));
        assert_eq!(state.turn_state, TurnState::AwaitingInput);
        assert!(state.ecs.moves.is_empty());
        assert_eq!(state.ecs.entities.len(), entities);
    }

    assert!(!state.tick(Some(InputKey::Right), &mut rng));
    assert_eq!(state.turn_state, TurnState::PlayerTurn);
    assert_eq!(
        state.ecs.moves,
        vec![WantsToMove { entity: Entity(0), destination: Point::new(41, 25) }]
    );
    assert_eq!(state.ecs.get(Entity(0)).unwrap().position, Some(Point::new(40, 25)));

    assert!(!state.tick(Some(InputKey::Left), &mut rng));
    assert_eq!(state.turn_state, TurnState::MonsterTurn);
    assert!(state.ecs.moves.is_empty());
    assert_eq!(state.ecs.get(Entity(0)).unwrap().position, Some(Point::new(41, 25)));

    assert!(!state.tick(Some(InputKey::Left), &mut rng));
    assert_eq!(state.turn_state, TurnState::AwaitingInput);
    assert_eq!(state.ecs.get(Entity(0)).unwrap().position, Some(Point::new(41, 25)));
    assert_eq!(state.ecs.entities.len(), entities);
}

#[test]
fn the_player_turn_moves_then_fights_then_uses_items() {
    let mut rng = RandomNumberGenerator::seeded(4);
    let mut mb = open_level();
    mb.monster_spawns = Vec::new();
    let mut state = State::from_level(mb, &mut rng);
    let player = Entity(0);
    let mut foe = Components::blank();
    foe.enemy = true;
    foe.health = Some(Health { current: 1, max: 1 });
    let foe = state.ecs.spawn(foe);
    let mut potion = Components::blank();
    potion.item = true;
    potion.healing = Some(3);
    let potion = state.ecs.spawn(potion);
    state.ecs.entities[0].as_mut().unwrap().health = Some(Health { current: 2, max: 10 });
    let exit = state.map.tiles.iter().position(|t| *t == TileType::Exit).unwrap();
    let exit = state.map.index_to_point2d(exit);
    state.ecs.moves.push(WantsToMove { entity: player, destination: exit });
    state.ecs.attacks.push(WantsToAttack { attacker: player, victim: foe });
    state.ecs.activations.push(ActivateItem { used_by: player, item: potion });
    state.turn_state = TurnState::PlayerTurn;
    assert!(!state.tick(None, &mut rng));
    assert_eq!(state.turn_state, TurnState::NextLevel);
    let p = state.ecs.get(player).unwrap();
    assert_eq!(p.position, Some(exit));
    assert_eq!(p.health, Some(Health { current: 5, max: 10 }));
    assert!(!state.ecs.is_alive(foe) && !state.ecs.is_alive(potion));
    assert!(state.ecs.moves.is_empty() && state.ecs.attacks.is_empty());
    assert!(state.ecs.activations.is_empty());
    assert!(!state.tick(None, &mut rng));
    assert_eq!(state.turn_state, TurnState::AwaitingInput);
    assert_eq!(state.ecs.get(player).unwrap().player, Some(Player { map_level: 1 }));
}

#[test]
fn the_monster_turn_leaves_item_activations_queued() {
    let mut rng = RandomNumberGenerator::seeded(4);
    let mut state = State::from_level(open_level(), &mut rng);
    let player = Entity(0);
    state.ecs.entities[1].as_mut().unwrap().damage = Some(20);
    state.ecs.attacks.push(WantsToAttack { attacker: Entity(1), victim: player });
    state.ecs.activations.push(ActivateItem { used_by: player, item: Entity(2) });
    state.turn_state = TurnState::MonsterTurn;
    assert!(!state.tick(None, &mut rng));
    assert_eq!(state.turn_state, TurnState::GameOver);
    assert!(state.ecs.is_alive(player));
    assert_eq!(state.ecs.get(player).unwrap().health, Some(Health { current: -10, max: 10 }));
    assert_eq!(state.ecs.activations.len(), 1);
    assert!(state.ecs.attacks.is_empty());
}

#[test]
fn a_finished_game_waits_restarts_or_quits() {
    for over in [TurnState::GameOver, TurnState::Victory] {
        let mut rng = RandomNumberGenerator::seeded(4);
        let mut state = State::from_level(open_level(), &mut rng);
        state.ecs.entities[0].as_mut().unwrap().health = Some(Health { current: 0, max: 10 });
        state.turn_state = over;
        assert!(!state.tick(None, &mut rng));
        assert!(!state.tick(Some(InputKey::Down), &mut rng));
        assert_eq!(state.turn_state, over);
        assert!(state.ecs.moves.is_empty());
        assert!(state.tick(Some(InputKey::Key2), &mut rng));
        assert_eq!(state.turn_state, over);
        assert!(!state.tick(Some(InputKey::Key1), &mut rng));
        assert_eq!(state.turn_state, TurnState::AwaitingInput);
        let p = state.ecs.get(Entity(0)).unwrap();
        assert_eq!(p.health, Some(Health { current: 10, max: 10 }));
        assert_eq!(p.player, Some(Player { map_level: 0 }));
        assert_eq!(state.map.tiles.iter().filter(|t| **t == TileType::Exit).count(), 1);
    }
}

#[test]
fn resetting_discards_the_old_world() {
    let (mut state, _, sword, _) = game_on_level(1);
    let mut rng = RandomNumberGenerator::seeded(21);
    state.reset_game_state(&mut rng);
    assert_eq!(state.turn_state, TurnState::AwaitingInput);
    assert!(state.ecs.moves.is_empty() && state.ecs.attacks.is_empty());
    assert_eq!(state.ecs.player(), Some(Entity(0)));
    assert!(state.ecs.entities.iter().flatten().all(|c| c.name.as_deref() != Some("Shiny Sword")));
    assert!(state.ecs.get(sword).map_or(true, |c| c.carried.is_none()));
    let _ = GridMap::new();
}
