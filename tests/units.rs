use arena_server::entities::{InventoryItem, Projectile, WallObject};
use arena_server::items::{Item, ItemData, ItemPlacedObject, ItemPlacedPattern, ItemProjectilePattern, ItemQuantity};
use arena_server::types::{CardinalDirection, Direction, Event, PlayerId, Position};

fn stack(cooldown: u32, quantity: ItemQuantity) -> InventoryItem {
    InventoryItem::new(&Item {
        name: "bomb".to_string(),
        cooldown,
        quantity,
        draw_weight: 1,
        data: ItemData::Placed { range: 1, object: ItemPlacedObject::Wall, pattern: ItemPlacedPattern::Single },
    })
}

#[test]
fn fresh_ids_have_21_characters() {
    let a = PlayerId::new();
    let b = PlayerId::new();
    assert_eq!(a.as_string().chars().count(), 21);
    assert_ne!(a, b);
}

#[test]
fn inside_uses_chebyshev_distance() {
    let c = Position::new(10, 10);
    assert!(Position::new(11, 9).is_inside(&c, 1));
    assert!(!Position::new(12, 10).is_inside(&c, 1));
    assert!(Position::new(10, 10).is_inside(&c, 0));
    assert!(Position::new(i32::MIN, 0).is_inside(&Position::new(i32::MAX, 0), u32::MAX));
}

#[test]
fn region_is_row_major() {
    let r = Position::new(5, 5).region(1);
    assert_eq!(r.len(), 9);
    assert_eq!(r[0], (4, 4));
    assert_eq!(r[1], (5, 4));
    assert_eq!(r[3], (4, 5));
    assert_eq!(r[8], (6, 6));
}

#[test]
fn offsets_follow_directions() {
    let p = Position::new(3, 3);
    assert_eq!(p.with_offset(Direction::Up), Position::new(3, 2));
    assert_eq!(p.with_offset(Direction::DownLeft), Position::new(2, 4));
    assert_eq!(p.with_offset(Direction::from(CardinalDirection::Right)), Position::new(4, 3));
    assert_eq!(Direction::all().len(), 8);
    assert_eq!(CardinalDirection::all().len(), 4);
}

#[test]
fn placed_patterns() {
    let p = Position::new(10, 10);
    assert_eq!(ItemPlacedPattern::Single.get_positions(&p, false), vec![p]);
    let rect = ItemPlacedPattern::Rectangle { width: 3, height: 1 };
    let flat = rect.get_positions(&p, false);
    assert_eq!(flat, vec![Position::new(9, 10), Position::new(10, 10), Position::new(11, 10)]);
    let upright = rect.get_positions(&p, true);
    assert_eq!(upright, vec![Position::new(10, 9), Position::new(10, 10), Position::new(10, 11)]);
    let ring = ItemPlacedPattern::Box { radius: 1 }.get_positions(&p, false);
    assert_eq!(ring.len(), 8);
    assert_eq!(ring[0], Position::new(9, 11));
    assert_eq!(ring[1], Position::new(9, 9));
    assert_eq!(ring[6], Position::new(11, 10));
    assert_eq!(ring[7], Position::new(9, 10));
    assert_eq!(ItemPlacedPattern::Box { radius: 0 }.get_positions(&p, false).len(), 2);
}

#[test]
fn projectile_patterns() {
    let p = Position::new(5, 5);
    let line = ItemProjectilePattern::Line.get_positions(&p, Direction::Up);
    assert_eq!(
        line,
        vec![
            (Position::new(4, 4), Direction::Up),
            (Position::new(6, 4), Direction::Up),
            (Position::new(5, 4), Direction::Up),
        ]
    );
    let diag = ItemProjectilePattern::Line.get_positions(&p, Direction::UpRight);
    assert_eq!(diag[0], (Position::new(5, 4), Direction::UpRight));
    assert_eq!(diag[1], (Position::new(6, 5), Direction::UpRight));
    assert_eq!(diag[2], (Position::new(6, 4), Direction::UpRight));
    let star = ItemProjectilePattern::Star.get_positions(&p, Direction::Down);
    assert_eq!(star.len(), 4);
    assert_eq!(star[2], (Position::new(4, 5), Direction::Left));
    assert_eq!(ItemProjectilePattern::Box.get_positions(&p, Direction::Down).len(), 8);
    assert_eq!(ItemProjectilePattern::Single.get_positions(&p, Direction::Left), vec![(Position::new(4, 5), Direction::Left)]);
}

#[test]
fn projectile_advances_by_speed() {
    let mut pr = Projectile::new(PlayerId::from_string("t".to_string()), "gun".to_string(), Position::new(2, 2), Direction::DownRight, 2, 3, 5);
    let path = pr.tick();
    assert_eq!(path, vec![Position::new(2, 2), Position::new(3, 3), Position::new(4, 4), Position::new(5, 5)]);
    assert_eq!(*pr.position(), Position::new(5, 5));
    assert!(!pr.should_delete());
    pr.tick();
    assert!(pr.should_delete());
    let mut other = Projectile::new(PlayerId::from_string("t".to_string()), "gun".to_string(), Position::new(2, 2), Direction::Up, 9, 1, 5);
    other.mark_for_removal();
    assert!(other.should_delete());
}

#[test]
fn inventory_stack_life() {
    let mut s = stack(2, ItemQuantity::Finite(2));
    assert!(s.is_usable(false));
    s.use_one();
    assert_eq!(*s.quantity(), ItemQuantity::Finite(1));
    assert!(!s.is_usable(false));
    assert!(s.is_usable(true));
    s.tick();
    s.tick();
    assert!(!s.is_usable(false));
    s.tick();
    assert!(s.is_usable(false));
    s.use_one();
    assert!(!s.is_usable(true));
    s.pick_up(&ItemQuantity::Finite(4));
    assert_eq!(*s.quantity(), ItemQuantity::Finite(4));
    s.pick_up(&ItemQuantity::Infinite);
    assert_eq!(*s.quantity(), ItemQuantity::Infinite);
    let mut t = stack(0, ItemQuantity::Infinite);
    t.pick_up(&ItemQuantity::Finite(3));
    assert_eq!(*t.quantity(), ItemQuantity::Infinite);
}

#[test]
fn wall_damage_saturates() {
    let mut w = WallObject { position: Position::new(0, 0), hp: 30 };
    w.take_damage(20);
    assert_eq!(w.hp, 10);
    w.take_damage(50);
    assert_eq!(w.hp, 0);
}

#[test]
fn event_constructors() {
    assert!(matches!(Event::new_nuke("a".to_string()), Event::Nuke { player } if player == "a"));
    assert!(matches!(Event::new_game_end(None), Event::GameEnd { winner: None }));
    assert!(matches!(Event::new_kill("a".to_string(), "b".to_string(), None), Event::Kill { weapon: None, .. }));
}
