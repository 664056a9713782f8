use arena_server::config::{Config, ScoreConfig};
use arena_server::entities::{Action, ActionUseItem, ChestObject, InventoryItem, Object, Projectile, WallObject};
use arena_server::game::Game;
use arena_server::generate::{noise_source, Terrain};
use arena_server::items::{
    BuffEffect, Item, ItemData, ItemPlacedObject, ItemPlacedPattern, ItemProjectilePattern, ItemQuantity,
};
use arena_server::map::GameMap;
use arena_server::save::Save;
use arena_server::server::{ClientState, ClientType, Reply};
use arena_server::state::{PlayerViewCell, ServerMessage};
use arena_server::tick::{KillCredit, NukeUse};
use arena_server::types::{CardinalDirection, Direction, Event, FirewallPattern, PlayerId, Position};

fn small_config(width: u32, height: u32) -> Config {
    let mut config = Config::default();
    config.world_gen.width = width;
    config.world_gen.height = height;
    config.world_gen.firewall_pattern = FirewallPattern::NoFirewall;
    config.world_gen.chest_max_number = 0;
    config
}

fn open_terrain(config: &Config) -> Vec<Terrain> {
    vec![Terrain::Open; (config.world_gen.width * config.world_gen.height) as usize]
}

/// A game with two teams, generated on open ground.
fn two_team_game(config: Config, seed: u64) -> (Game, PlayerId, PlayerId) {
    let terrain = open_terrain(&config);
    let mut game = Game::new(config, Save::default());
    let a = game.create_player("alpha".to_string());
    let b = game.create_player("bravo".to_string());
    let mut rng = noise_source(seed).0;
    assert!(game.generate(&mut rng, &terrain));
    (game, a, b)
}

fn index(game: &Game, id: &PlayerId) -> usize {
    game.find_player(id).unwrap()
}

fn wall_item(range: u32) -> Item {
    Item {
        name: "wall".to_string(),
        cooldown: 0,
        quantity: ItemQuantity::Infinite,
        draw_weight: 1,
        data: ItemData::Placed { range, object: ItemPlacedObject::Wall, pattern: ItemPlacedPattern::Single },
    }
}

#[test]
fn bounds_are_half_open() {
    let map = GameMap::new(5, 4);
    assert!(map.is_within_bounds(&Position::new(0, 0)));
    assert!(map.is_within_bounds(&Position::new(4, 3)));
    assert!(!map.is_within_bounds(&Position::new(5, 3)));
    assert!(!map.is_within_bounds(&Position::new(4, 4)));
    assert!(!map.is_within_bounds(&Position::new(-1, 0)));
    assert!(!map.is_within_bounds(&Position::new(0, -1)));
}

#[test]
fn move_needs_adjacent_passable_cell() {
    let (mut game, a, _b) = two_team_game(small_config(20, 20), 1);
    let i = index(&game, &a);
    game.players[i].position = Position::new(5, 5);
    game.map.objects.push(Object::new_wall(Position::new(6, 6)));
    let c = game.map.cell_index(&Position::new(4, 4));
    game.map.vias[c] = true;

    let map = &game.map;
    let mut p = game.players[i].copy();
    p.try_move(map, Position::new(7, 5));
    assert_eq!(p.position, Position::new(5, 5));
    p.try_move(map, Position::new(6, 6));
    assert_eq!(p.position, Position::new(5, 5));
    p.try_move(map, Position::new(4, 4));
    assert_eq!(p.position, Position::new(5, 5));
    p.try_move(map, Position::new(6, 5));
    assert_eq!(p.position, Position::new(6, 5));
    assert_eq!(p.last_position, Some(Position::new(5, 5)));
    p.try_move(map, Position::new(7, 4));
    assert_eq!(p.position, Position::new(7, 4));
    assert_eq!(p.last_position, Some(Position::new(5, 5)));
}

#[test]
fn move_action_through_tick() {
    let (mut game, a, _b) = two_team_game(small_config(20, 20), 2);
    let i = index(&game, &a);
    game.players[i].position = Position::new(3, 3);
    game.set_player_action(&a, Action::Move { position: Position::new(4, 4) });
    game.tick();
    assert_eq!(game.players[i].position, Position::new(4, 4));
    assert!(game.players[i].action.is_none());
    game.set_player_action(&a, Action::Move { position: Position::new(6, 4) });
    game.tick();
    assert_eq!(game.players[i].position, Position::new(4, 4));
}

#[test]
fn phase_skips_walls() {
    let (mut game, a, _b) = two_team_game(small_config(20, 20), 3);
    let i = index(&game, &a);
    game.players[i].position = Position::new(5, 5);
    game.map.objects.push(Object::new_wall(Position::new(6, 5)));
    game.map.objects.push(Object::new_wall(Position::new(7, 5)));
    let mut p = game.players[i].copy();
    p.try_phase(&game.map, CardinalDirection::Right);
    assert_eq!(p.position, Position::new(8, 5));
    let mut q = game.players[i].copy();
    q.position = Position::new(17, 5);
    game.map.objects.push(Object::new_wall(Position::new(18, 5)));
    game.map.objects.push(Object::new_wall(Position::new(19, 5)));
    q.try_phase(&game.map, CardinalDirection::Right);
    assert_eq!(q.position, Position::new(17, 5));
}

#[test]
fn chest_opens_once_per_team() {
    let items = vec![wall_item(2)];
    let mut chest = ChestObject { position: Position::new(1, 1), items, opened_by: Vec::new() };
    let id = PlayerId::from_string("team-a".to_string());
    let first = chest.open(&id);
    assert_eq!(first.map(|v| v.len()), Some(1));
    let second = chest.open(&id);
    assert!(second.is_none());
    assert_eq!(chest.opened_by.len(), 1);
    let other = PlayerId::from_string("team-b".to_string());
    assert!(chest.open(&other).is_some());
}

#[test]
fn opening_a_chest_twice_leaves_inventory_unchanged() {
    let mut config = small_config(20, 20);
    config.world_gen.player_items = Vec::new();
    let (mut game, a, _b) = two_team_game(config, 4);
    let i = index(&game, &a);
    game.players[i].position = Position::new(2, 2);
    game.map.objects.push(Object::new_chest(Position::new(3, 2), vec![wall_item(2)]));
    let before_score = game.players[i].score;
    game.set_player_action(&a, Action::OpenChest { position: Position::new(3, 2) });
    game.tick();
    assert_eq!(game.players[i].inventory.len(), 1);
    assert_eq!(game.players[i].total_opened_chests, 1);
    assert_eq!(game.players[i].score, before_score + 20);
    game.set_player_action(&a, Action::OpenChest { position: Position::new(3, 2) });
    game.tick();
    assert_eq!(game.players[i].inventory.len(), 1);
    assert_eq!(game.players[i].total_opened_chests, 1);
    assert_eq!(game.players[i].score, before_score + 20);
}

#[test]
fn nuke_kill_gives_no_kill_score() {
    let (mut game, a, b) = two_team_game(small_config(20, 20), 5);
    let i = index(&game, &a);
    let loot = vec![InventoryItem::new(&wall_item(1))];
    let nukes = vec![NukeUse { owner: a.clone(), damage: 500, item_name: "nuke".to_string() }];
    let score = game.players[i].score;
    let event = game.credit_kill(
        KillCredit { killer: a.clone(), victim: "bravo".to_string(), loot, weapon: Some("nuke".to_string()) },
        &nukes,
    );
    assert_eq!(game.players[i].score, score);
    assert_eq!(game.players[i].total_kills, 1);
    assert_eq!(game.players[i].inventory.len(), 1);
    match event {
        Some(Event::Kill { killer, victim, weapon }) => {
            assert_eq!(killer, "alpha");
            assert_eq!(victim, "bravo");
            assert_eq!(weapon, Some("nuke".to_string()));
        }
        _ => panic!("expected a kill event"),
    }
    let loot = vec![InventoryItem::new(&wall_item(1))];
    game.credit_kill(
        KillCredit { killer: a.clone(), victim: "bravo".to_string(), loot, weapon: Some("gun".to_string()) },
        &nukes,
    );
    assert_eq!(game.players[i].score, score + 100);
    assert_eq!(game.players[i].total_kills, 2);
    let unknown = game.credit_kill(
        KillCredit {
            killer: PlayerId::from_string("nobody".to_string()),
            victim: "bravo".to_string(),
            loot: Vec::new(),
            weapon: None,
        },
        &nukes,
    );
    assert!(unknown.is_none());
    let _ = b;
}

#[test]
fn nuke_in_a_tick_kills_without_kill_score() {
    let mut config = small_config(20, 20);
    config.world_gen.player_items = vec![Item {
        name: "nuke".to_string(),
        cooldown: 0,
        quantity: ItemQuantity::Finite(1),
        draw_weight: 1,
        data: ItemData::Nuke { damage: 200 },
    }];
    config.allow_single_player = true;
    let (mut game, a, b) = two_team_game(config, 6);
    let i = index(&game, &a);
    let j = index(&game, &b);
    let score = game.players[i].score;
    game.set_player_action(&a, Action::UseItem { name: "nuke".to_string(), data: ActionUseItem::Nuke });
    let events = game.tick();
    assert!(!game.players[j].is_alive());
    assert_eq!(game.players[i].total_kills, 1);
    assert_eq!(game.players[i].score, score);
    assert!(events.iter().any(|e| matches!(e, Event::Nuke { player } if player == "alpha")));
    assert!(events.iter().any(|e| matches!(e, Event::Kill { killer, victim, .. } if killer == "alpha" && victim == "bravo")));
    // The victim's nuke stack went to the killer.
    assert_eq!(game.players[i].inventory.len(), 1);
}

#[test]
fn firewall_never_shrinks() {
    let mut config = small_config(12, 12);
    config.world_gen.firewall_pattern = FirewallPattern::Middle;
    config.world_gen.firewall_speed = 2;
    config.firewall_damage = 0;
    let (mut game, _a, _b) = two_team_game(config, 7);
    let mut burning: Vec<bool> = game.map.firewall.clone();
    assert_eq!(burning.iter().filter(|b| **b).count(), 4);
    for _ in 0..20 {
        game.tick();
        for (c, was) in burning.iter().enumerate() {
            if *was {
                assert!(game.map.firewall[c]);
            }
        }
        burning = game.map.firewall.clone();
    }
}

#[test]
fn four_corner_and_one_corner_patterns() {
    let mut config = small_config(6, 5);
    config.world_gen.firewall_pattern = FirewallPattern::FourCorner;
    let (game, _a, _b) = two_team_game(config, 8);
    for (x, y) in [(0, 0), (0, 4), (5, 0), (5, 4)] {
        assert!(game.map.is_firewall(&Position::new(x, y)));
    }
    assert_eq!(game.map.firewall.iter().filter(|b| **b).count(), 4);
    let mut config = small_config(6, 5);
    config.world_gen.firewall_pattern = FirewallPattern::OneCorner;
    let (game, _a, _b) = two_team_game(config, 9);
    assert_eq!(game.map.firewall.iter().filter(|b| **b).count(), 1);
}

#[test]
fn same_seed_same_map() {
    let mut config = small_config(30, 30);
    config.world_gen.chest_max_number = 10;
    config.world_gen.chest_items = vec![wall_item(1), Item { name: "medkit".to_string(), ..wall_item(1) }];
    let mut terrain = open_terrain(&config);
    for (k, cell) in terrain.iter_mut().enumerate() {
        if k % 7 == 0 {
            *cell = Terrain::Wall;
        } else if k % 11 == 0 {
            *cell = Terrain::Via;
        }
    }
    let build = |seed: u64| {
        let mut game = Game::new(small_config_with(&config), Save::default());
        game.create_player("alpha".to_string());
        game.create_player("bravo".to_string());
        game.create_player("charlie".to_string());
        let mut rng = noise_source(seed).0;
        assert!(game.generate(&mut rng, &terrain));
        game
    };
    let g1 = build(42);
    let g2 = build(42);
    let describe = |g: &Game| {
        let objects: Vec<(i32, i32, bool, usize)> = g
            .map
            .objects
            .iter()
            .map(|o| match o {
                Object::Wall(w) => (w.position.x, w.position.y, true, 0),
                Object::Chest(c) => (c.position.x, c.position.y, false, c.items.len()),
                Object::Trap(t) => (t.position.x, t.position.y, false, 99),
            })
            .collect();
        let spawns: Vec<Position> = g.players.iter().map(|p| p.position).collect();
        (objects, spawns, g.map.vias.clone(), g.map.firewall.clone())
    };
    assert_eq!(describe(&g1), describe(&g2));
    let chests = g1.map.objects.iter().filter(|o| matches!(o, Object::Chest(_))).count();
    assert_eq!(chests, 10);
    let walls = g1.map.objects.iter().filter(|o| matches!(o, Object::Wall(_))).count();
    assert_eq!(walls, terrain.iter().filter(|t| **t == Terrain::Wall).count());
}

fn small_config_with(config: &Config) -> Config {
    let mut c = small_config(config.world_gen.width, config.world_gen.height);
    c.world_gen.chest_max_number = config.world_gen.chest_max_number;
    c.world_gen.chest_items = config.world_gen.chest_items.clone();
    c
}

#[test]
fn generation_fails_when_too_few_open_cells() {
    let config = small_config(2, 1);
    let terrain = vec![Terrain::Open, Terrain::Wall];
    let mut game = Game::new(config, Save::default());
    game.create_player("alpha".to_string());
    game.create_player("bravo".to_string());
    let mut rng = noise_source(3).0;
    assert!(!game.generate(&mut rng, &terrain));
    let terrain = vec![Terrain::Open, Terrain::Open];
    let mut rng = noise_source(3).0;
    assert!(game.generate(&mut rng, &terrain));
    assert_ne!(game.players[0].position, game.players[1].position);
}

#[test]
fn broken_wall_is_removed_and_credited_once() {
    let (mut game, a, _b) = two_team_game(small_config(20, 20), 10);
    let i = index(&game, &a);
    let j = 1 - i;
    game.players[i].position = Position::new(15, 15);
    game.players[j].position = Position::new(18, 18);
    game.map.objects.push(Object::Wall(WallObject { position: Position::new(5, 7), hp: 10 }));
    game.map.projectiles.push(Projectile::new(a.clone(), "gun".to_string(), Position::new(5, 5), Direction::Down, 3, 2, 10));
    let score = game.players[i].score;
    game.tick();
    assert!(!game.map.objects.iter().any(|o| matches!(o, Object::Wall(w) if w.position == Position::new(5, 7))));
    assert!(game.map.projectiles.is_empty());
    assert_eq!(game.players[i].score, score + 40);
    game.tick();
    assert_eq!(game.players[i].score, score + 40);
}

#[test]
fn damaged_wall_stays() {
    let (mut game, a, _b) = two_team_game(small_config(20, 20), 11);
    let i = index(&game, &a);
    game.players[i].position = Position::new(15, 15);
    game.players[1 - i].position = Position::new(18, 18);
    game.map.objects.push(Object::new_wall(Position::new(5, 6)));
    game.map.projectiles.push(Projectile::new(a.clone(), "gun".to_string(), Position::new(5, 5), Direction::Down, 3, 1, 30));
    let score = game.players[i].score;
    game.tick();
    assert!(game.map.objects.iter().any(|o| matches!(o, Object::Wall(w) if w.position == Position::new(5, 6) && w.hp == 70)));
    assert_eq!(game.players[i].score, score);
}

#[test]
fn self_destruct_ends_the_game() {
    let (mut game, a, b) = two_team_game(small_config(20, 20), 12);
    let i = index(&game, &a);
    let j = index(&game, &b);
    let score_a = game.players[i].score;
    let score_b = game.players[j].score;
    game.set_player_action(&a, Action::SegFault);
    let events = game.tick();
    assert_eq!(events.len(), 2);
    match &events[0] {
        Event::Kill { killer, victim, weapon } => {
            assert_eq!(killer, "alpha");
            assert_eq!(victim, "alpha");
            assert_eq!(weapon.as_deref(), Some("SegFault"));
        }
        _ => panic!("expected a kill event"),
    }
    match &events[1] {
        Event::GameEnd { winner } => assert_eq!(winner.as_deref(), Some("bravo")),
        _ => panic!("expected the game end"),
    }
    assert_eq!(game.players[i].hp, 0);
    assert_eq!(game.players[i].score, score_a - 200);
    assert_eq!(game.players[i].total_segfaults, 1);
    assert_eq!(game.stats().alive_count, 1);
    assert_eq!(game.players[j].score, score_b + 250);
    assert_eq!(game.players[j].total_wins, 1);
    let terrain = open_terrain(&game.config);
    let mut rng = noise_source(13).0;
    assert!(game.generate(&mut rng, &terrain));
    assert_eq!(game.players[i].hp, 100);
    assert_eq!(game.players[i].total_segfaults, 1);
    assert_eq!(game.players[j].total_wins, 1);
}

#[test]
fn placed_wall_appears() {
    let mut config = small_config(20, 20);
    config.world_gen.player_items = vec![wall_item(2)];
    let (mut game, a, _b) = two_team_game(config, 14);
    let i = index(&game, &a);
    game.players[i].position = Position::new(10, 10);
    game.players[1 - i].position = Position::new(1, 1);
    game.set_player_action(
        &a,
        Action::UseItem {
            name: "wall".to_string(),
            data: ActionUseItem::Placed { position: Position::new(10, 11), place_rectangle_vertical: false },
        },
    );
    game.tick();
    assert!(game.map.objects.iter().any(|o| matches!(o, Object::Wall(w) if w.position == Position::new(10, 11) && w.hp == 100)));
    // Out of range: nothing is placed.
    game.set_player_action(
        &a,
        Action::UseItem {
            name: "wall".to_string(),
            data: ActionUseItem::Placed { position: Position::new(10, 14), place_rectangle_vertical: false },
        },
    );
    game.tick();
    assert!(!game.map.objects.iter().any(|o| o.position() == &Position::new(10, 14)));
    // Onto an existing wall: nothing more is placed.
    let walls = game.map.objects.len();
    game.set_player_action(
        &a,
        Action::UseItem {
            name: "wall".to_string(),
            data: ActionUseItem::Placed { position: Position::new(10, 11), place_rectangle_vertical: false },
        },
    );
    game.tick();
    assert_eq!(game.map.objects.len(), walls);
}

#[test]
fn projectile_hits_first_player_on_path() {
    let mut config = small_config(20, 20);
    config.world_gen.player_items = vec![Item {
        name: "gun".to_string(),
        cooldown: 2,
        quantity: ItemQuantity::Infinite,
        draw_weight: 1,
        data: ItemData::Projectile { tick_lifetime: 5, damage: 30, speed: 3, pattern: ItemProjectilePattern::Single },
    }];
    let (mut game, a, b) = two_team_game(config, 15);
    let i = index(&game, &a);
    let j = index(&game, &b);
    game.players[i].position = Position::new(5, 5);
    game.players[j].position = Position::new(5, 8);
    game.set_player_action(&a, Action::UseItem { name: "gun".to_string(), data: ActionUseItem::Projectile { direction: Direction::Down } });
    game.tick();
    assert_eq!(game.players[j].hp, 70);
    assert!(game.map.projectiles.is_empty());
    // The cooldown blocks an immediate second shot.
    game.set_player_action(&a, Action::UseItem { name: "gun".to_string(), data: ActionUseItem::Projectile { direction: Direction::Down } });
    game.tick();
    assert!(game.map.projectiles.is_empty());
    assert_eq!(game.players[j].hp, 70);
}

#[test]
fn trap_springs_on_other_players_only() {
    let mut config = small_config(20, 20);
    config.world_gen.player_items = vec![Item {
        name: "trap".to_string(),
        cooldown: 0,
        quantity: ItemQuantity::Finite(1),
        draw_weight: 1,
        data: ItemData::Placed { range: 3, object: ItemPlacedObject::Trap { damage: 40 }, pattern: ItemPlacedPattern::Single },
    }];
    let (mut game, a, b) = two_team_game(config, 16);
    let i = index(&game, &a);
    let j = index(&game, &b);
    game.players[i].position = Position::new(5, 5);
    game.players[j].position = Position::new(9, 9);
    game.set_player_action(&a, Action::UseItem { name: "trap".to_string(), data: ActionUseItem::Placed { position: Position::new(5, 6), place_rectangle_vertical: false } });
    game.tick();
    assert!(game.map.objects.iter().any(|o| matches!(o, Object::Trap(t) if t.active && t.position == Position::new(5, 6))));
    // The finite stack is used up and dropped.
    assert!(game.players[i].inventory.iter().all(|s| s.name != "trap"));
    game.set_player_action(&a, Action::Move { position: Position::new(5, 6) });
    game.tick();
    assert_eq!(game.players[i].hp, 100);
    game.players[j].position = Position::new(5, 6);
    let score = game.players[j].score;
    game.tick();
    assert_eq!(game.players[j].hp, 60);
    assert_eq!(game.players[j].score, score - 10);
    assert!(!game.map.objects.iter().any(|o| matches!(o, Object::Trap(_))));
}

#[test]
fn firewall_damage_is_not_credited() {
    let mut config = small_config(10, 10);
    config.firewall_damage = 100;
    config.world_gen.firewall_pattern = FirewallPattern::FourCorner;
    config.world_gen.firewall_speed = 1000;
    config.allow_single_player = true;
    let (mut game, a, b) = two_team_game(config, 17);
    let i = index(&game, &a);
    let j = index(&game, &b);
    game.players[i].position = Position::new(0, 0);
    game.players[j].position = Position::new(5, 5);
    let events = game.tick();
    assert!(!game.players[i].is_alive());
    assert!(events.iter().any(|e| matches!(e, Event::Kill { killer, victim, weapon } if killer == "FireWall" && victim == "alpha" && weapon.is_none())));
    assert_eq!(game.players[j].total_kills, 0);
}

#[test]
fn buffs_are_capped() {
    let mut config = small_config(10, 10);
    config.world_gen.player_items = vec![Item {
        name: "heal".to_string(),
        cooldown: 0,
        quantity: ItemQuantity::Infinite,
        draw_weight: 1,
        data: ItemData::Buff { effect: BuffEffect::HealAndShield, power: 30 },
    }];
    let (mut game, a, _b) = two_team_game(config, 18);
    let i = index(&game, &a);
    game.players[i].hp = 80;
    let score = game.players[i].score;
    game.set_player_action(&a, Action::UseItem { name: "heal".to_string(), data: ActionUseItem::Buff });
    game.tick();
    assert_eq!(game.players[i].hp, 100);
    assert_eq!(game.players[i].shield, 30);
    assert_eq!(game.players[i].score, score + 30);
}

#[test]
fn agent_view_is_a_cropped_window() {
    let (mut game, a, b) = two_team_game(small_config(10, 10), 19);
    let i = index(&game, &a);
    let j = index(&game, &b);
    game.players[i].position = Position::new(1, 1);
    game.players[j].position = Position::new(3, 2);
    game.map.objects.push(Object::new_wall(Position::new(2, 1)));
    game.map.objects.push(Object::new_chest(Position::new(1, 3), Vec::new()));
    let state = game.get_player_game_state(&a).unwrap();
    assert_eq!(state.ground.offset, Position::new(-2, -2));
    assert_eq!(state.ground.data.len(), 49);
    assert_eq!(state.ground.data[0], PlayerViewCell::Invalid);
    assert_eq!(state.ground.data[3 * 7 + 3], PlayerViewCell::Empty);
    assert_eq!(state.ground.data[3 * 7 + 4], PlayerViewCell::Wall);
    assert_eq!(state.ground.data[5 * 7 + 3], PlayerViewCell::Chest);
    assert_eq!(state.enemies.len(), 1);
    assert_eq!(state.objects.len(), 2);
    game.players[i].hp = 0;
    assert!(game.get_player_game_state(&a).is_none());
    assert!(game.get_player_game_state(&PlayerId::from_string("nobody".to_string())).is_none());
}

#[test]
fn spectator_view_hides_traps() {
    let (mut game, a, _b) = two_team_game(small_config(6, 4), 20);
    game.map.objects.push(Object::new_wall(Position::new(5, 0)));
    game.map.objects.push(Object::new_trap(a.clone(), Position::new(1, 1), "trap".to_string(), 10));
    let c = game.map.cell_index(&Position::new(2, 3));
    game.map.vias[c] = true;
    match game.get_game_state() {
        ServerMessage::GameState { scoreboard, state } => {
            assert_eq!(scoreboard.map(|s| s.len()), Some(2));
            assert_eq!(state.objects.len(), 1);
            assert_eq!(state.ground.data.len(), 24);
            assert_eq!(state.ground.data[5], PlayerViewCell::Wall);
            assert_eq!(state.ground.data[3 * 6 + 2], PlayerViewCell::Via);
            assert_eq!(state.stats.alive_count, 2);
            assert_eq!(state.players.len(), 2);
        }
        _ => panic!("expected the game state"),
    }
}

#[test]
fn rename_rules() {
    let (mut game, a, _b) = two_team_game(small_config(10, 10), 21);
    assert!(!game.rename_player(&a, "ab".to_string()));
    assert!(!game.rename_player(&a, "bravo".to_string()));
    assert!(game.rename_player(&a, "charlie".to_string()));
    assert_eq!(game.get_player_name(&a).map(|s| s.as_str()), Some("charlie"));
    assert!(!game.rename_player(&PlayerId::from_string("x".to_string()), "delta".to_string()));
    assert!(game.earn_score(&"charlie".to_string(), 5));
    assert!(!game.earn_score(&"nobody".to_string(), 5));
}

#[test]
fn linking_connections() {
    let (mut game, a, _b) = two_team_game(small_config(10, 10), 22);
    let out = game.handle_link(ClientType::Agent, None);
    assert!(out.state.is_none());
    assert!(matches!(out.replies.as_slice(), [Reply::LinkFailed]));
    let out = game.handle_link(ClientType::Agent, Some(a.clone()));
    assert!(matches!(out.state, Some(ClientState::Agent(ref id)) if *id == a));
    let out = game.handle_link(ClientType::Dashboard, Some(PlayerId::from_string("zzz".to_string())));
    assert!(matches!(out.state, Some(ClientState::Frontend(None))));
    assert!(matches!(out.replies.as_slice(), [Reply::GameState, Reply::LinkFailed]));
    let out = game.handle_link(ClientType::Dashboard, Some(a.clone()));
    assert!(matches!(out.replies.as_slice(), [Reply::GameState, Reply::NameConfirmation(n)] if n == "alpha"));
    let state = ClientState::Frontend(Some(a.clone()));
    assert!(matches!(game.handle_rename(&state, "omega".to_string()), Some(Reply::NameConfirmation(n)) if n == "omega"));
    assert!(matches!(game.handle_rename(&ClientState::Frontend(None), "omega2".to_string()), Some(Reply::LinkFailed)));
    assert!(game.handle_rename(&ClientState::Unregistered, "omega3".to_string()).is_none());
    game.handle_action(&ClientState::Agent(a.clone()), Action::Skip);
    let i = index(&game, &a);
    assert!(matches!(game.players[i].action, Some(Action::Skip)));
}

#[test]
fn save_round_trip_keeps_totals() {
    let (mut game, a, _b) = two_team_game(small_config(10, 10), 23);
    let i = index(&game, &a);
    game.players[i].add_kill();
    game.players[i].add_win();
    game.players[i].earn_score(77);
    let save = game.get_save();
    let restored = Game::new(small_config(10, 10), save);
    let k = index(&restored, &a);
    assert_eq!(restored.players[k].total_kills, 1);
    assert_eq!(restored.players[k].total_wins, 1);
    assert_eq!(restored.players[k].score, 77);
    assert_eq!(restored.players[k].name, "alpha");
}

#[test]
fn default_scores() {
    let s = ScoreConfig::default();
    assert_eq!(s.victory, 250);
    assert_eq!(s.kill_player, 100);
    assert_eq!(s.get_killed_by_yourself, -200);
    let c = Config::default();
    assert_eq!(c.damage_multiplier_percent, 150);
    assert_eq!(c.world_gen.width, 200);
}

#[test]
fn certain_spread_reaches_every_neighbour() {
    let mut config = small_config(8, 8);
    config.world_gen.firewall_pattern = FirewallPattern::FourCorner;
    config.world_gen.firewall_speed = 1;
    config.firewall_damage = 0;
    let (mut game, _a, _b) = two_team_game(config, 24);
    game.spread_firewall();
    for (x, y) in [(0, 0), (1, 0), (0, 1), (7, 7), (6, 7), (7, 6), (0, 7), (0, 6), (1, 7), (7, 0), (6, 0), (7, 1)] {
        assert!(game.map.is_firewall(&Position::new(x, y)));
    }
    assert_eq!(game.map.firewall.iter().filter(|b| **b).count(), 12);
}

#[test]
fn chests_hold_one_to_three_items() {
    let mut config = small_config(20, 20);
    config.world_gen.chest_max_number = 30;
    config.world_gen.chest_items = vec![
        wall_item(1),
        Item { name: "a".to_string(), ..wall_item(1) },
        Item { name: "b".to_string(), ..wall_item(1) },
        Item { name: "c".to_string(), draw_weight: 0, ..wall_item(1) },
    ];
    let (game, _a, _b) = two_team_game(config, 25);
    let mut chests = 0;
    for o in game.map.objects.iter() {
        if let Object::Chest(c) = o {
            chests += 1;
            assert!(!c.items.is_empty() && c.items.len() <= 3);
            for i in 0..c.items.len() {
                for j in (i + 1)..c.items.len() {
                    assert_ne!(c.items[i].name, c.items[j].name);
                }
            }
        }
    }
    assert_eq!(chests, 30);
    for p in game.players.iter() {
        assert!(!game.map.objects.iter().any(|o| o.position() == &p.position));
    }
}

#[test]
fn no_survivor_means_no_winner() {
    let (mut game, a, b) = two_team_game(small_config(10, 10), 26);
    game.set_player_action(&a, Action::SegFault);
    game.set_player_action(&b, Action::SegFault);
    let events = game.tick();
    assert!(matches!(events.last(), Some(Event::GameEnd { winner: None })));
    assert!(game.players.iter().all(|p| p.total_wins == 0 && !p.is_alive()));
    // Dead players stay dead and do nothing.
    game.set_player_action(&a, Action::Move { position: Position::new(0, 0) });
    let i = index(&game, &a);
    let before = game.players[i].position;
    game.tick();
    assert_eq!(game.players[i].position, before);
    assert_eq!(game.players[i].hp, 0);
}

#[test]
fn cleanup_drops_broken_walls_and_sprung_traps() {
    let (mut game, a, _b) = two_team_game(small_config(10, 10), 27);
    game.map.objects.push(Object::Wall(WallObject { position: Position::new(1, 1), hp: 0 }));
    game.map.objects.push(Object::Wall(WallObject { position: Position::new(2, 1), hp: 5 }));
    let mut trap = Object::new_trap(a.clone(), Position::new(3, 1), "trap".to_string(), 5);
    if let Some(t) = trap.get_trap_mut() {
        t.active = false;
    }
    game.map.objects.push(trap);
    game.map.objects.push(Object::new_chest(Position::new(4, 1), Vec::new()));
    game.map.projectiles.push(Projectile::new(a.clone(), "gun".to_string(), Position::new(1, 1), Direction::Up, 0, 1, 1));
    game.cleanup();
    assert_eq!(game.map.objects.len(), 2);
    assert!(game.map.projectiles.is_empty());
}

#[test]
fn hit_wall_credits_the_breaker() {
    let (mut game, a, _b) = two_team_game(small_config(10, 10), 28);
    let i = index(&game, &a);
    game.map.objects.push(Object::Wall(WallObject { position: Position::new(1, 1), hp: 15 }));
    let k = game.map.objects.len() - 1;
    let score = game.players[i].score;
    game.hit_wall(k, 10, &a);
    assert_eq!(game.players[i].score, score);
    game.hit_wall(k, 10, &a);
    assert_eq!(game.players[i].score, score + 40);
    assert!(matches!(game.map.objects[k], Object::Wall(WallObject { hp: 0, .. })));
}

#[test]
fn tenth_tick_adds_one_point() {
    let (mut game, a, _b) = two_team_game(small_config(10, 10), 29);
    let i = index(&game, &a);
    let score = game.players[i].score;
    for _ in 0..9 {
        game.tick();
    }
    assert_eq!(game.players[i].score, score);
    game.tick();
    assert_eq!(game.players[i].score, score + 1);
}

#[test]
fn rename_counts_bytes() {
    let (mut game, a, _b) = two_team_game(small_config(10, 10), 30);
    assert!(game.rename_player(&a, "éa".to_string()));
    assert!(!game.rename_player(&a, "é".to_string()));
}

#[test]
fn zero_ratio_never_spreads() {
    let mut config = small_config(8, 8);
    config.world_gen.firewall_pattern = FirewallPattern::Middle;
    config.world_gen.firewall_speed = 1;
    config.firewall_damage = 0;
    let (mut game, _a, _b) = two_team_game(config, 31);
    let draws = vec![false; 4 * 64];
    let before = game.map.firewall.clone();
    game.spread_with(&draws);
    assert_eq!(game.map.firewall, before);
    let mut draws = vec![false; 4 * 64];
    let c = game.map.cell_index(&Position::new(3, 3));
    draws[4 * c] = true;
    game.spread_with(&draws);
    assert!(game.map.is_firewall(&Position::new(3, 2)));
    assert!(!game.map.is_firewall(&Position::new(2, 3)));
    assert_eq!(game.map.firewall.iter().filter(|b| **b).count(), 5);
}
