use arena_server::config::WorldGenConfig;
use arena_server::entities::InventoryItem;
use arena_server::items::{BuffEffect, Item, ItemData, ItemQuantity};
use arena_server::player::Player;
use arena_server::types::PlayerId;

fn buff(name: &str, quantity: ItemQuantity) -> Item {
    Item { name: name.to_string(), cooldown: 0, quantity, draw_weight: 1, data: ItemData::Buff { effect: BuffEffect::Heal, power: 10 } }
}

fn fresh() -> Player {
    let mut config = WorldGenConfig::default();
    config.player_items = vec![buff("heal", ItemQuantity::Finite(1))];
    Player::new(PlayerId::from_string("t1".to_string()), "team".to_string(), &config)
}

#[test]
fn shield_absorbs_damage_first() {
    let mut p = fresh();
    p.shield = 30;
    p.take_damage(50, 0, 200);
    assert_eq!(p.hp, 80);
    assert_eq!(p.shield, 0);
    p.take_damage(10, 0, 200);
    assert_eq!(p.hp, 70);
}

#[test]
fn death_bonus_counts_dead_players() {
    let mut p = fresh();
    p.take_damage(500, 3, 200);
    assert_eq!(p.hp, 0);
    assert!(!p.is_alive());
    assert_eq!(p.score, 6);
    p.take_damage(500, 3, 200);
    assert_eq!(p.score, 6);
    let mut q = fresh();
    q.take_damage(500, 3, 150);
    assert_eq!(q.score, 4);
    let mut r = fresh();
    r.take_damage(500, 3, -150);
    assert_eq!(r.score, -5);
}

#[test]
fn picked_up_stacks_merge() {
    let mut p = fresh();
    p.add_to_inventory(vec![
        InventoryItem::new(&buff("heal", ItemQuantity::Finite(2))),
        InventoryItem::new(&buff("other", ItemQuantity::Finite(1))),
    ]);
    assert_eq!(p.inventory.len(), 2);
    assert_eq!(*p.inventory[0].quantity(), ItemQuantity::Finite(3));
    let taken = p.steal_inventory();
    assert_eq!(taken.len(), 2);
    assert!(p.inventory.is_empty());
}

#[test]
fn damage_buff_multiplies() {
    let mut p = fresh();
    assert_eq!(p.get_multiplied_damage(10, 150), 10);
    p.remaining_damage_ticks = 2;
    assert_eq!(p.get_multiplied_damage(10, 150), 15);
    assert_eq!(p.get_multiplied_damage(3, 150), 4);
}

#[test]
fn scores_saturate() {
    let mut p = fresh();
    p.earn_score(i32::MAX);
    p.earn_score(10);
    assert_eq!(p.score(), i32::MAX);
    p.add_kill();
    p.add_win();
    assert_eq!(p.total_kills(), 1);
    assert_eq!(p.total_wins(), 1);
    p.rename("renamed".to_string());
    assert_eq!(p.name(), "renamed");
}
