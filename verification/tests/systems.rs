use dungeoncrawl::components::{
    ActivateItem, Components, Entity, Health, Player, WantsToAttack, WantsToMove,
};
use dungeoncrawl::geometry::Point;
use dungeoncrawl::map::{GridMap, TileType};
use dungeoncrawl::systems::combat::{combat, damage_of};
use dungeoncrawl::systems::end_turn::{amulet_at, end_turn, next_phase};
use dungeoncrawl::systems::hud::hud;
use dungeoncrawl::systems::movement::movement;
use dungeoncrawl::systems::player_input::{key_delta, player_input};
use dungeoncrawl::systems::use_item::use_item;
use dungeoncrawl::turn_state::{InputKey, TurnState};
use dungeoncrawl::world::World;

fn player_at(pos: Point, current: i32, max: i32) -> Components {
    let mut c = Components::blank();
    c.player = Some(Player { map_level: 0 });
    c.position = Some(pos);
    c.health = Some(Health { current, max });
    c.fov_dirty = Some(false);
    c
}

fn monster(current: i32, damage: Option<i32>) -> Components {
    let mut c = Components::blank();
    c.enemy = true;
    c.position = Some(Point::new(9, 9));
    c.health = Some(Health { current, max: current });
    c.damage = damage;
    c
}

fn weapon(bonus: i32, carrier: Entity) -> Components {
    let mut c = Components::blank();
    c.item = true;
    c.damage = Some(bonus);
    c.carried = Some(carrier);
    c.name = Some(format!("Sword +{}", bonus));
    c
}

fn potion(amount: i32) -> Components {
    let mut c = Components::blank();
    c.item = true;
    c.healing = Some(amount);
    c.name = Some("Healing Potion".to_string());
    c
}

fn health_of(world: &World, e: Entity) -> Health {
    world.get(e).unwrap().health.unwrap()
}

#[test]
fn blank_entity_has_no_attribute() {
    let c = Components::blank();
    assert!(c.player.is_none() && !c.enemy && !c.item && !c.amulet);
    assert!(c.position.is_none() && c.health.is_none() && c.damage.is_none());
    assert!(c.name.is_none() && c.carried.is_none() && c.healing.is_none());
    assert!(!c.reveals_map && c.fov_dirty.is_none());
}

#[test]
fn handles_are_stable_across_removal() {
    let mut world = World::new();
    let a = world.spawn(monster(1, None));
    let b = world.spawn(monster(2, None));
    let c = world.spawn(monster(3, None));
    assert_eq!((a, b, c), (Entity(0), Entity(1), Entity(2)));
    world.remove(b);
    assert!(world.is_alive(a) && !world.is_alive(b) && world.is_alive(c));
    assert!(world.get(b).is_none());
    assert_eq!(health_of(&world, c).current, 3);
    assert_eq!(world.spawn(monster(4, None)), Entity(3));
    world.remove(Entity(99));
    assert_eq!(world.entities.len(), 4);
    world.remove_all(&vec![a, c, a, Entity(50)]);
    assert!(!world.is_alive(a) && !world.is_alive(c) && world.is_alive(Entity(3)));
    assert!(!world.is_alive(Entity(4)));
}

#[test]
fn the_player_is_the_first_entity_marked_so() {
    let mut world = World::new();
    assert_eq!(world.player(), None);
    world.spawn(monster(1, None));
    assert_eq!(world.player(), None);
    let p = world.spawn(player_at(Point::new(1, 1), 5, 5));
    world.spawn(player_at(Point::new(2, 2), 5, 5));
    assert_eq!(world.player(), Some(p));
    world.remove(p);
    assert_eq!(world.player(), Some(Entity(2)));
}

#[test]
fn damage_is_base_plus_carried_bonuses() {
    let mut world = World::new();
    let attacker = world.spawn(monster(5, Some(3)));
    let victim = world.spawn(monster(10, None));
    world.spawn(weapon(2, attacker));
    world.spawn(weapon(1, attacker));
    world.spawn(weapon(7, victim));
    let mut lying = weapon(9, attacker);
    lying.carried = None;
    world.spawn(lying);
    assert_eq!(damage_of(&world, attacker), 6);
    assert_eq!(damage_of(&world, victim), 7);
    world.attacks.push(WantsToAttack { attacker, victim });
    combat(&mut world);
    assert_eq!(health_of(&world, victim), Health { current: 4, max: 10 });
    assert_eq!(health_of(&world, attacker), Health { current: 5, max: 5 });
    assert!(world.attacks.is_empty());
    assert!(world.is_alive(victim));
}

#[test]
fn an_attacker_without_damage_contributes_zero() {
    let mut world = World::new();
    let attacker = world.spawn(monster(5, None));
    let victim = world.spawn(monster(10, None));
    world.spawn(weapon(4, attacker));
    world.attacks.push(WantsToAttack { attacker, victim });
    world.attacks.push(WantsToAttack { attacker: Entity(77), victim });
    combat(&mut world);
    assert_eq!(health_of(&world, victim).current, 6);
}

#[test]
fn a_slain_monster_is_removed_and_the_player_never_is() {
    let mut world = World::new();
    let player = world.spawn(player_at(Point::new(1, 1), 1, 10));
    let goblin = world.spawn(monster(1, Some(1)));
    let orc = world.spawn(monster(3, Some(5)));
    world.attacks.push(WantsToAttack { attacker: goblin, victim: player });
    world.attacks.push(WantsToAttack { attacker: orc, victim: player });
    world.attacks.push(WantsToAttack { attacker: orc, victim: goblin });
    combat(&mut world);
    assert!(world.is_alive(player));
    assert_eq!(health_of(&world, player), Health { current: -5, max: 10 });
    assert!(!world.is_alive(goblin));
    assert!(world.is_alive(orc));
    assert!(world.attacks.is_empty());
}

#[test]
fn a_victim_left_with_one_health_stays() {
    let mut world = World::new();
    let attacker = world.spawn(monster(5, Some(2)));
    let victim = world.spawn(monster(3, None));
    world.attacks.push(WantsToAttack { attacker, victim });
    combat(&mut world);
    assert!(world.is_alive(victim));
    assert_eq!(health_of(&world, victim).current, 1);
    world.attacks.push(WantsToAttack { attacker, victim });
    combat(&mut world);
    assert!(!world.is_alive(victim));
}

#[test]
fn every_attack_is_applied_once_and_removal_waits_for_the_end() {
    let mut world = World::new();
    let a = world.spawn(monster(5, Some(2)));
    let b = world.spawn(monster(3, Some(4)));
    world.attacks.push(WantsToAttack { attacker: a, victim: b });
    world.attacks.push(WantsToAttack { attacker: a, victim: b });
    world.attacks.push(WantsToAttack { attacker: b, victim: a });
    combat(&mut world);
    assert!(!world.is_alive(b));
    assert_eq!(health_of(&world, a).current, 1);
    combat(&mut world);
    assert_eq!(health_of(&world, a).current, 1);
}

#[test]
fn attacks_on_the_absent_or_the_healthless_are_passed_over() {
    let mut world = World::new();
    let attacker = world.spawn(monster(5, Some(2)));
    let stone = world.spawn(Components::blank());
    let gone = world.spawn(monster(5, None));
    world.remove(gone);
    world.attacks.push(WantsToAttack { attacker, victim: stone });
    world.attacks.push(WantsToAttack { attacker, victim: gone });
    world.attacks.push(WantsToAttack { attacker, victim: Entity(1000) });
    world.moves.push(WantsToMove { entity: attacker, destination: Point::new(1, 1) });
    combat(&mut world);
    assert!(world.attacks.is_empty());
    assert_eq!(world.moves.len(), 1);
    assert!(world.is_alive(stone) && world.get(stone).unwrap().health.is_none());
    assert!(!world.is_alive(gone));
}

#[test]
fn health_stays_within_range_under_huge_damage() {
    let mut world = World::new();
    let attacker = world.spawn(monster(5, Some(i32::MAX)));
    world.spawn(weapon(i32::MAX, attacker));
    let player = world.spawn(player_at(Point::new(1, 1), i32::MIN + 5, 10));
    assert_eq!(damage_of(&world, attacker), 2 * (i32::MAX as i128));
    world.attacks.push(WantsToAttack { attacker, victim: player });
    combat(&mut world);
    assert_eq!(health_of(&world, player).current, i32::MIN);
    let healer = world.spawn(monster(5, Some(i32::MIN)));
    world.attacks.push(WantsToAttack { attacker: healer, victim: player });
    world.attacks.push(WantsToAttack { attacker: healer, victim: player });
    world.attacks.push(WantsToAttack { attacker: healer, victim: player });
    combat(&mut world);
    assert_eq!(health_of(&world, player).current, i32::MAX);
}

#[test]
fn healing_restores_up_to_the_maximum() {
    let mut map = GridMap::new();
    let mut world = World::new();
    let hurt = world.spawn(player_at(Point::new(1, 1), 5, 20));
    let nearly = world.spawn(player_at(Point::new(2, 2), 18, 20));
    let first = world.spawn(potion(10));
    let second = world.spawn(potion(10));
    world.activations.push(ActivateItem { used_by: hurt, item: first });
    world.activations.push(ActivateItem { used_by: nearly, item: second });
    use_item(&mut world, &mut map);
    assert_eq!(health_of(&world, hurt), Health { current: 15, max: 20 });
    assert_eq!(health_of(&world, nearly), Health { current: 20, max: 20 });
    assert!(!world.is_alive(first) && !world.is_alive(second));
    assert!(world.activations.is_empty());
    assert!(map.revealed_tiles.iter().all(|r| !*r));
}

#[test]
fn a_map_item_reveals_every_tile() {
    let mut map = GridMap::new();
    let mut world = World::new();
    let user = world.spawn(player_at(Point::new(1, 1), 5, 20));
    let mut scroll = Components::blank();
    scroll.item = true;
    scroll.reveals_map = true;
    let scroll = world.spawn(scroll);
    world.activations.push(ActivateItem { used_by: user, item: scroll });
    use_item(&mut world, &mut map);
    assert!(map.revealed_tiles.iter().all(|r| *r));
    assert!(map.tiles.iter().all(|t| *t == TileType::Floor));
    assert!(!world.is_alive(scroll));
    assert_eq!(health_of(&world, user).current, 5);
}

#[test]
fn simultaneous_activations_read_their_items_first() {
    let mut map = GridMap::new();
    let mut world = World::new();
    let user = world.spawn(player_at(Point::new(1, 1), 1, 20));
    let p = world.spawn(potion(4));
    world.activations.push(ActivateItem { used_by: user, item: p });
    world.activations.push(ActivateItem { used_by: user, item: p });
    world.activations.push(ActivateItem { used_by: user, item: Entity(40) });
    world.activations.push(ActivateItem { used_by: Entity(41), item: p });
    use_item(&mut world, &mut map);
    assert_eq!(health_of(&world, user).current, 9);
    assert!(!world.is_alive(p));
    assert!(world.activations.is_empty());
    use_item(&mut world, &mut map);
    assert_eq!(health_of(&world, user).current, 9);
}

#[test]
fn healing_never_leaves_the_range() {
    let mut map = GridMap::new();
    let mut world = World::new();
    let user = world.spawn(player_at(Point::new(1, 1), i32::MAX - 1, i32::MAX));
    let poisoned = world.spawn(player_at(Point::new(1, 1), i32::MIN + 1, 5));
    let big = world.spawn(potion(i32::MAX));
    let poison = world.spawn(potion(i32::MIN));
    world.activations.push(ActivateItem { used_by: user, item: big });
    world.activations.push(ActivateItem { used_by: poisoned, item: poison });
    use_item(&mut world, &mut map);
    assert_eq!(health_of(&world, user).current, i32::MAX);
    assert_eq!(health_of(&world, poisoned).current, i32::MIN);
}

#[test]
fn no_key_changes_nothing() {
    let mut world = World::new();
    world.spawn(player_at(Point::new(5, 5), 10, 10));
    let mut state = TurnState::AwaitingInput;
    player_input(&mut world, None, &mut state);
    assert_eq!(state, TurnState::AwaitingInput);
    assert!(world.moves.is_empty());
    assert_eq!(world.entities.len(), 1);
}

#[test]
fn a_direction_key_queues_one_move_and_starts_the_player_turn() {
    let cases = [
        (InputKey::Left, Point::new(4, 5)),
        (InputKey::Right, Point::new(6, 5)),
        (InputKey::Up, Point::new(5, 4)),
        (InputKey::Down, Point::new(5, 6)),
    ];
    for (key, destination) in cases {
        let mut world = World::new();
        world.spawn(monster(3, None));
        let player = world.spawn(player_at(Point::new(5, 5), 10, 10));
        let mut state = TurnState::AwaitingInput;
        player_input(&mut world, Some(key), &mut state);
        assert_eq!(state, TurnState::PlayerTurn);
        assert_eq!(world.moves, vec![WantsToMove { entity: player, destination }]);
        assert!(world.attacks.is_empty() && world.activations.is_empty());
    }
}

#[test]
fn a_key_that_names_no_direction_changes_nothing() {
    for key in [InputKey::Other, InputKey::Key1, InputKey::Key2] {
        for phase in [TurnState::AwaitingInput, TurnState::MonsterTurn] {
            let mut world = World::new();
            let player = world.spawn(player_at(Point::new(5, 5), 10, 10));
            world.moves.push(WantsToMove { entity: player, destination: Point::new(1, 1) });
            let mut state = phase;
            player_input(&mut world, Some(key), &mut state);
            assert_eq!(state, phase);
            assert_eq!(
                world.moves,
                vec![WantsToMove { entity: player, destination: Point::new(1, 1) }]
            );
            assert_eq!(world.entities.len(), 1);
            assert!(world.attacks.is_empty() && world.activations.is_empty());
        }
    }
}

#[test]
fn key_deltas_are_unit_steps() {
    assert_eq!(key_delta(InputKey::Left), Some(Point::new(-1, 0)));
    assert_eq!(key_delta(InputKey::Right), Some(Point::new(1, 0)));
    assert_eq!(key_delta(InputKey::Up), Some(Point::new(0, -1)));
    assert_eq!(key_delta(InputKey::Down), Some(Point::new(0, 1)));
    assert_eq!(key_delta(InputKey::Key1), None);
    assert_eq!(key_delta(InputKey::Key2), None);
    assert_eq!(key_delta(InputKey::Other), None);
}

#[test]
fn a_step_off_the_number_range_leads_nowhere() {
    let mut world = World::new();
    let player = world.spawn(player_at(Point::new(i32::MAX, 0), 10, 10));
    let mut state = TurnState::AwaitingInput;
    player_input(&mut world, Some(InputKey::Right), &mut state);
    assert_eq!(
        world.moves,
        vec![WantsToMove { entity: player, destination: Point::new(i32::MAX, 0) }]
    );
}

#[test]
fn moves_enter_open_tiles_only() {
    let mut map = GridMap::new();
    map.set_tile(Point::new(6, 5), TileType::Wall);
    map.set_tile(Point::new(5, 6), TileType::Exit);
    let mut world = World::new();
    let a = world.spawn(player_at(Point::new(5, 5), 10, 10));
    let b = world.spawn(monster(1, None));
    let ghost = world.spawn(Components::blank());
    world.moves.push(WantsToMove { entity: a, destination: Point::new(6, 5) });
    world.moves.push(WantsToMove { entity: b, destination: Point::new(-1, 5) });
    world.moves.push(WantsToMove { entity: ghost, destination: Point::new(1, 1) });
    world.moves.push(WantsToMove { entity: Entity(30), destination: Point::new(1, 1) });
    movement(&mut world, &map);
    assert!(world.moves.is_empty());
    assert_eq!(world.get(a).unwrap().position, Some(Point::new(5, 5)));
    assert_eq!(world.get(a).unwrap().fov_dirty, Some(false));
    assert_eq!(world.get(b).unwrap().position, Some(Point::new(9, 9)));
    assert_eq!(world.get(ghost).unwrap().position, None);
    world.moves.push(WantsToMove { entity: a, destination: Point::new(5, 6) });
    world.moves.push(WantsToMove { entity: b, destination: Point::new(0, 0) });
    world.moves.push(WantsToMove { entity: b, destination: Point::new(79, 49) });
    movement(&mut world, &map);
    assert_eq!(world.get(a).unwrap().position, Some(Point::new(5, 6)));
    assert_eq!(world.get(a).unwrap().fov_dirty, Some(true));
    assert_eq!(world.get(b).unwrap().position, Some(Point::new(79, 49)));
    assert_eq!(world.get(b).unwrap().fov_dirty, None);
}

#[test]
fn phases_follow_each_other() {
    assert_eq!(next_phase(TurnState::PlayerTurn), TurnState::MonsterTurn);
    assert_eq!(next_phase(TurnState::MonsterTurn), TurnState::AwaitingInput);
    assert_eq!(next_phase(TurnState::AwaitingInput), TurnState::AwaitingInput);
    assert_eq!(next_phase(TurnState::GameOver), TurnState::GameOver);
    assert_eq!(next_phase(TurnState::Victory), TurnState::Victory);
    assert_eq!(next_phase(TurnState::NextLevel), TurnState::NextLevel);
}

fn ended(world: &World, map: &GridMap, from: TurnState) -> TurnState {
    let mut state = from;
    end_turn(world, map, &mut state);
    state
}

#[test]
fn end_of_turn_cycles_and_detects_death_exit_and_amulet() {
    let mut map = GridMap::new();
    map.set_tile(Point::new(7, 7), TileType::Exit);
    let mut world = World::new();
    let player = world.spawn(player_at(Point::new(5, 5), 3, 10));
    assert_eq!(ended(&world, &map, TurnState::AwaitingInput), TurnState::AwaitingInput);
    assert_eq!(ended(&world, &map, TurnState::PlayerTurn), TurnState::MonsterTurn);
    assert_eq!(ended(&world, &map, TurnState::MonsterTurn), TurnState::AwaitingInput);

    world.entities[player.0].as_mut().unwrap().health = Some(Health { current: 0, max: 10 });
    assert_eq!(ended(&world, &map, TurnState::PlayerTurn), TurnState::GameOver);
    assert_eq!(ended(&world, &map, TurnState::MonsterTurn), TurnState::GameOver);
    assert_eq!(ended(&world, &map, TurnState::AwaitingInput), TurnState::AwaitingInput);

    let mut amulet = Components::blank();
    amulet.item = true;
    amulet.amulet = true;
    amulet.position = Some(Point::new(5, 5));
    let amulet = world.spawn(amulet);
    assert!(amulet_at(&world, Point::new(5, 5)));
    assert!(!amulet_at(&world, Point::new(5, 6)));
    assert_eq!(ended(&world, &map, TurnState::PlayerTurn), TurnState::Victory);

    world.entities[player.0].as_mut().unwrap().position = Some(Point::new(7, 7));
    assert_eq!(ended(&world, &map, TurnState::MonsterTurn), TurnState::NextLevel);
    world.entities[amulet.0].as_mut().unwrap().position = Some(Point::new(7, 7));
    assert_eq!(ended(&world, &map, TurnState::MonsterTurn), TurnState::NextLevel);

    world.entities[player.0].as_mut().unwrap().position = Some(Point::new(6, 6));
    world.entities[player.0].as_mut().unwrap().health = Some(Health { current: 1, max: 10 });
    assert_eq!(ended(&world, &map, TurnState::PlayerTurn), TurnState::MonsterTurn);
}

#[test]
fn a_carried_amulet_lies_nowhere() {
    let mut world = World::new();
    let player = world.spawn(player_at(Point::new(5, 5), 3, 10));
    let mut amulet = Components::blank();
    amulet.amulet = true;
    amulet.position = Some(Point::new(5, 5));
    amulet.carried = Some(player);
    world.spawn(amulet);
    assert!(!amulet_at(&world, Point::new(5, 5)));
    let map = GridMap::new();
    assert_eq!(ended(&world, &map, TurnState::PlayerTurn), TurnState::MonsterTurn);
}

#[test]
fn end_of_turn_without_a_player_just_cycles() {
    let map = GridMap::new();
    let mut world = World::new();
    world.spawn(monster(0, None));
    assert_eq!(ended(&world, &map, TurnState::PlayerTurn), TurnState::MonsterTurn);
}

#[test]
fn the_display_lists_the_first_eight_carried_items() {
    let mut world = World::new();
    assert!(hud(&world).is_none());
    let other = world.spawn(monster(4, None));
    let mut p = player_at(Point::new(5, 5), 7, 12);
    p.player = Some(Player { map_level: 1 });
    let player = world.spawn(p);
    for n in 0..10 {
        let mut item = weapon(n, if n == 3 { other } else { player });
        if n == 5 {
            item.name = None;
        }
        if n == 6 {
            item.item = false;
        }
        world.spawn(item);
    }
    let view = hud(&world).unwrap();
    assert_eq!(view.health, Health { current: 7, max: 12 });
    assert_eq!(view.level, 2);
    assert_eq!(
        view.inventory,
        vec!["Sword +0", "Sword +1", "Sword +2", "Sword +4", "Sword +7", "Sword +8", "Sword +9"]
    );
    for n in 10..14 {
        world.spawn(weapon(n, player));
    }
    let view = hud(&world).unwrap();
    assert_eq!(
        view.inventory,
        vec![
            "Sword +0", "Sword +1", "Sword +2", "Sword +4", "Sword +7", "Sword +8", "Sword +9",
            "Sword +10"
        ]
    );
}

#[test]
fn the_display_needs_a_player_with_health() {
    let mut world = World::new();
    let mut p = player_at(Point::new(5, 5), 7, 12);
    p.health = None;
    world.spawn(p);
    assert!(hud(&world).is_none());
    let mut deep = World::new();
    let mut p = player_at(Point::new(5, 5), 7, 12);
    p.player = Some(Player { map_level: u32::MAX });
    deep.spawn(p);
    assert_eq!(hud(&deep).unwrap().level, 4294967296);
}
